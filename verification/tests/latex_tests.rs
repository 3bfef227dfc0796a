use quantum_error_analyzer::io::latex::export_latex;
use quantum_error_analyzer::physics::circuit::{Circuit, Gate, SingleGate, TwoGate};

#[test]
fn test_latex_export() {
    let mut circuit = Circuit::new(2);
    circuit
        .add_gate(Gate::Single {
            qubit: 0,
            gate: SingleGate::H,
        })
        .unwrap();
    circuit
        .add_gate(Gate::Two(TwoGate::CNOT {
            control: 0,
            target: 1,
        }))
        .unwrap();

    let latex = export_latex(&circuit);
    assert!(latex.contains("qcircuit"));
    assert!(latex.contains("\\gate{H}"));
}
