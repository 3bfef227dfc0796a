use quantum_error_analyzer::physics::circuit::{SingleGate, TwoGate};
use quantum_error_analyzer::physics::pauli::{PauliString, Phase, SinglePauli};
use quantum_error_analyzer::physics::propagation::{apply_single_gate, apply_two_gate};

#[test]
fn propagation_test_hadamard_conjugation() {
    let mut p = PauliString::from_str("X", 1).unwrap();
    apply_single_gate(&mut p, 0, SingleGate::H);
    assert_eq!(p.get_pauli(0), SinglePauli::Z);
    assert_eq!(p.phase(), Phase::PlusOne);
    
    let mut p = PauliString::from_str("Z", 1).unwrap();
    apply_single_gate(&mut p, 0, SingleGate::H);
    assert_eq!(p.get_pauli(0), SinglePauli::X);
    
    let mut p = PauliString::from_str("Y", 1).unwrap();
    apply_single_gate(&mut p, 0, SingleGate::H);
    assert_eq!(p.get_pauli(0), SinglePauli::Y);
    assert_eq!(p.phase(), Phase::MinusOne);
}

#[test]
fn propagation_test_phase_gate_conjugation() {
    let mut p = PauliString::from_str("X", 1).unwrap();
    apply_single_gate(&mut p, 0, SingleGate::S);
    assert_eq!(p.get_pauli(0), SinglePauli::Y);
    assert_eq!(p.phase(), Phase::PlusI);
    
    let mut p = PauliString::from_str("Y", 1).unwrap();
    apply_single_gate(&mut p, 0, SingleGate::S);
    assert_eq!(p.get_pauli(0), SinglePauli::X);
    assert_eq!(p.phase(), Phase::MinusOne);
    
    let mut p = PauliString::from_str("Z", 1).unwrap();
    apply_single_gate(&mut p, 0, SingleGate::S);
    assert_eq!(p.get_pauli(0), SinglePauli::Z);
}

#[test]
fn test_cnot_propagation() {
    let mut p = PauliString::from_str("X I", 2).unwrap();
    apply_two_gate(&mut p, TwoGate::CNOT { control: 0, target: 1 });
    assert_eq!(p.get_pauli(0), SinglePauli::X);
    assert_eq!(p.get_pauli(1), SinglePauli::X);
    
    let mut p = PauliString::from_str("I Z", 2).unwrap();
    apply_two_gate(&mut p, TwoGate::CNOT { control: 0, target: 1 });
    assert_eq!(p.get_pauli(0), SinglePauli::Z);
    assert_eq!(p.get_pauli(1), SinglePauli::Z);
}
