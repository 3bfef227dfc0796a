use quantum_error_analyzer::physics::circuit::{Circuit, Gate, SingleGate, TwoGate};
use quantum_error_analyzer::physics::pauli::SinglePauli;
use quantum_error_analyzer::physics::simulator::Simulator;

#[test]
fn test_simulator_basic() {
    let mut circuit = Circuit::new(2);
    circuit
        .add_gate(Gate::Single {
            qubit: 0,
            gate: SingleGate::H,
        })
        .unwrap();
    circuit
        .add_gate(Gate::Two(TwoGate::CNOT {
            control: 0,
            target: 1,
        }))
        .unwrap();

    let mut sim = Simulator::new(circuit);
    sim.inject_error(0, SinglePauli::X);
    
    assert!(sim.step_forward());
    // H X H' = Z
    assert_eq!(sim.error_pattern().get_pauli(0), SinglePauli::Z);
    
    assert!(sim.step_forward());
    assert_eq!(sim.error_pattern().get_pauli(0), SinglePauli::Z);
    assert_eq!(sim.error_pattern().get_pauli(1), SinglePauli::I);
}

#[test]
fn simulator_test_cnot_x_propagation() {
    let mut circuit = Circuit::new(2);
    circuit
        .add_gate(Gate::Two(TwoGate::CNOT {
            control: 0,
            target: 1,
        }))
        .unwrap();

    let mut sim = Simulator::new(circuit);
    sim.inject_error(0, SinglePauli::X);
    sim.run();
    assert_eq!(sim.error_pattern().get_pauli(0), SinglePauli::X);
    assert_eq!(sim.error_pattern().get_pauli(1), SinglePauli::X);
}

#[test]
fn simulator_test_cnot_z_propagation() {
    let mut circuit = Circuit::new(2);
    circuit
        .add_gate(Gate::Two(TwoGate::CNOT {
            control: 0,
            target: 1,
        }))
        .unwrap();

    let mut sim = Simulator::new(circuit);
    sim.inject_error(1, SinglePauli::Z);
    sim.run();
    assert_eq!(sim.error_pattern().get_pauli(0), SinglePauli::Z);
    assert_eq!(sim.error_pattern().get_pauli(1), SinglePauli::Z);
}
