//! The simulator: stepping, undoing, injecting and the recorded timeline.

use quantum_error_analyzer::physics::circuit::{Circuit, Gate, SingleGate, TwoGate};
use quantum_error_analyzer::physics::pauli::{PauliString, Phase, SinglePauli};
use quantum_error_analyzer::physics::simulator::Simulator;

fn sample() -> Circuit {
    let mut circuit = Circuit::new(3);
    circuit.add_gate(Gate::Single { qubit: 0, gate: SingleGate::H }).unwrap();
    circuit.add_gate(Gate::Two(TwoGate::CNOT { control: 0, target: 1 })).unwrap();
    circuit.add_gate(Gate::Single { qubit: 1, gate: SingleGate::S }).unwrap();
    circuit.add_gate(Gate::Two(TwoGate::CZ { control: 1, target: 2 })).unwrap();
    circuit.add_gate(Gate::Two(TwoGate::SWAP { qubit1: 0, qubit2: 2 })).unwrap();
    circuit
}

#[test]
fn test_initial_state() {
    let sim = Simulator::new(sample());
    assert_eq!(sim.current_time(), 0);
    assert_eq!(sim.depth(), 5);
    assert_eq!(sim.error_pattern(), &PauliString::new(3));
    assert_eq!(sim.timeline().len(), 1);
    let first = sim.get_snapshot(0).unwrap();
    assert_eq!(first.time, 0);
    assert_eq!(first.gate_applied, None);
    assert_eq!(first.error_pattern, PauliString::new(3));
    assert!(sim.get_snapshot(1).is_none());
    assert_eq!(sim.circuit(), &sample());
}

#[test]
fn test_bell_pair_error() {
    let mut circuit = Circuit::new(2);
    circuit.add_gate(Gate::Single { qubit: 0, gate: SingleGate::H }).unwrap();
    circuit.add_gate(Gate::Two(TwoGate::CNOT { control: 0, target: 1 })).unwrap();
    let mut sim = Simulator::new(circuit);
    sim.inject_error(0, SinglePauli::X);
    assert!(sim.step_forward());
    assert_eq!(sim.error_pattern().get_pauli(0), SinglePauli::Z);
    assert_eq!(sim.error_pattern().get_pauli(1), SinglePauli::I);
    assert_eq!(sim.error_pattern().phase(), Phase::PlusOne);
    assert!(sim.step_forward());
    assert_eq!(sim.error_pattern().get_pauli(0), SinglePauli::Z);
    assert_eq!(sim.error_pattern().get_pauli(1), SinglePauli::I);
    assert_eq!(sim.error_pattern().phase(), Phase::PlusOne);
    assert!(!sim.step_forward());
}

#[test]
fn test_phase_gate_scenario() {
    let mut circuit = Circuit::new(1);
    circuit.add_gate(Gate::Single { qubit: 0, gate: SingleGate::S }).unwrap();
    let mut sim = Simulator::new(circuit);
    sim.inject_error(0, SinglePauli::X);
    assert!(sim.step_forward());
    assert_eq!(sim.error_pattern().get_pauli(0), SinglePauli::Y);
    assert_eq!(sim.error_pattern().phase(), Phase::PlusI);
}

#[test]
fn test_forward_then_backward_restores_the_start() {
    for n in 0..9 {
        let mut sim = Simulator::new(sample());
        sim.inject_error(0, SinglePauli::X);
        sim.inject_error(2, SinglePauli::Y);
        let start = sim.error_pattern().clone();
        for k in 0..n {
            assert_eq!(sim.step_forward(), k < 5);
            assert_eq!(sim.timeline().len(), sim.current_time() + 1);
        }
        assert_eq!(sim.current_time(), n.min(5));
        for k in 0..n {
            assert_eq!(sim.step_backward(), k < n.min(5));
            assert_eq!(sim.timeline().len(), sim.current_time() + 1);
        }
        assert_eq!(sim.current_time(), 0);
        assert_eq!(sim.error_pattern(), &start);
        assert_eq!(sim.timeline().len(), 1);
        assert_eq!(sim.timeline()[0].error_pattern, start);
    }
}

#[test]
fn test_timeline_records_each_step() {
    let mut sim = Simulator::new(sample());
    sim.inject_error(0, SinglePauli::X);
    let mut patterns = vec![sim.error_pattern().clone()];
    while sim.step_forward() {
        patterns.push(sim.error_pattern().clone());
    }
    assert_eq!(sim.current_time(), 5);
    assert_eq!(sim.timeline().len(), 6);
    for (k, snapshot) in sim.timeline().iter().enumerate() {
        assert_eq!(snapshot.time, k);
        assert_eq!(snapshot.gate_applied, if k == 0 { None } else { Some(k - 1) });
        assert_eq!(snapshot.error_pattern, patterns[k]);
        assert_eq!(sim.get_snapshot(k), Some(snapshot));
    }
    assert!(sim.get_snapshot(6).is_none());
    // X -H-> Z, CNOT(0,1) keeps Z on the control, S and CZ keep it, SWAP moves it.
    assert_eq!(patterns[1], PauliString::from_str("ZII", 3).unwrap());
    assert_eq!(patterns[4], PauliString::from_str("ZII", 3).unwrap());
    assert_eq!(patterns[5], PauliString::from_str("IIZ", 3).unwrap());
}

#[test]
fn test_step_at_the_ends_changes_nothing() {
    let mut sim = Simulator::new(sample());
    sim.inject_error(1, SinglePauli::Z);
    assert!(!sim.step_backward());
    assert_eq!(sim.current_time(), 0);
    assert_eq!(sim.timeline().len(), 1);
    assert_eq!(sim.error_pattern().get_pauli(1), SinglePauli::Z);
    sim.run();
    let end = sim.error_pattern().clone();
    assert!(!sim.step_forward());
    assert_eq!(sim.current_time(), 5);
    assert_eq!(sim.timeline().len(), 6);
    assert_eq!(sim.error_pattern(), &end);
}

#[test]
fn test_inject_rewrites_the_newest_snapshot_only() {
    let mut sim = Simulator::new(sample());
    sim.inject_error(0, SinglePauli::X);
    assert!(sim.step_forward());
    assert!(sim.step_forward());
    let before: Vec<_> = sim.timeline().to_vec();
    sim.inject_error(2, SinglePauli::Y);
    assert_eq!(sim.timeline().len(), 3);
    assert_eq!(sim.timeline()[0], before[0]);
    assert_eq!(sim.timeline()[1], before[1]);
    assert_eq!(sim.timeline()[2].time, 2);
    assert_eq!(sim.timeline()[2].gate_applied, Some(1));
    assert_eq!(sim.timeline()[2].error_pattern, PauliString::from_str("ZIY", 3).unwrap());
    assert_eq!(sim.error_pattern(), &PauliString::from_str("ZIY", 3).unwrap());
    // A step backward restores what was recorded before the injection.
    assert!(sim.step_backward());
    assert_eq!(sim.error_pattern(), &before[1].error_pattern);
    // Injecting the identity removes an error.
    sim.inject_error(0, SinglePauli::I);
    assert_eq!(sim.error_pattern(), &PauliString::new(3));
}

#[test]
fn test_reset_returns_to_the_initial_state() {
    let mut sim = Simulator::new(sample());
    sim.inject_error(0, SinglePauli::Y);
    sim.run();
    assert_eq!(sim.current_time(), 5);
    sim.reset();
    assert_eq!(sim.current_time(), 0);
    assert_eq!(sim.error_pattern(), &PauliString::new(3));
    assert_eq!(sim.timeline().len(), 1);
    assert_eq!(sim.timeline()[0].time, 0);
    assert_eq!(sim.timeline()[0].gate_applied, None);
    assert_eq!(sim.timeline()[0].error_pattern, PauliString::new(3));
    assert_eq!(sim.depth(), 5);
}

#[test]
fn test_run_from_the_middle() {
    let mut stepped = Simulator::new(sample());
    stepped.inject_error(0, SinglePauli::X);
    stepped.inject_error(1, SinglePauli::Y);
    while stepped.step_forward() {}
    let mut run = Simulator::new(sample());
    run.inject_error(0, SinglePauli::X);
    run.inject_error(1, SinglePauli::Y);
    assert!(run.step_forward());
    assert!(run.step_forward());
    run.run();
    assert_eq!(run.current_time(), 5);
    assert_eq!(run.error_pattern(), stepped.error_pattern());
    assert_eq!(run.timeline(), stepped.timeline());
    run.run();
    assert_eq!(run.current_time(), 5);
    assert_eq!(run.timeline().len(), 6);
}

#[test]
fn test_empty_circuit() {
    let mut sim = Simulator::new(Circuit::new(0));
    assert_eq!(sim.depth(), 0);
    assert!(!sim.step_forward());
    assert!(!sim.step_backward());
    sim.run();
    sim.reset();
    assert_eq!(sim.timeline().len(), 1);
    assert_eq!(sim.current_time(), 0);
}
