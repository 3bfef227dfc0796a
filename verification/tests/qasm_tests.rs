use quantum_error_analyzer::io::qasm::{export_qasm, import_qasm};
use quantum_error_analyzer::physics::circuit::{Circuit, Gate, SingleGate, TwoGate};

#[test]
fn test_qasm_export() {
    let mut circuit = Circuit::new(2);
    circuit
        .add_gate(Gate::Single {
            qubit: 0,
            gate: SingleGate::H,
        })
        .unwrap();
    circuit
        .add_gate(Gate::Two(TwoGate::CNOT {
            control: 0,
            target: 1,
        }))
        .unwrap();

    let qasm = export_qasm(&circuit);
    assert!(qasm.contains("qreg q[2]"));
    assert!(qasm.contains("h q[0]"));
    assert!(qasm.contains("cx q[0],q[1]"));
}

#[test]
fn test_qasm_import() {
    let qasm = r#"
OPENQASM 2.0;
include "qelib1.inc";
qreg q[2];
h q[0];
cx q[0],q[1];
"#;

    let circuit = import_qasm(qasm).unwrap();
    assert_eq!(circuit.num_qubits, 2);
    assert_eq!(circuit.gates.len(), 2);
}

#[test]
fn test_qasm_roundtrip() {
    let mut circuit = Circuit::new(3);
    circuit
        .add_gate(Gate::Single {
            qubit: 0,
            gate: SingleGate::H,
        })
        .unwrap();
    circuit
        .add_gate(Gate::Single {
            qubit: 1,
            gate: SingleGate::S,
        })
        .unwrap();
    circuit
        .add_gate(Gate::Two(TwoGate::CNOT {
            control: 0,
            target: 2,
        }))
        .unwrap();
    circuit
        .add_gate(Gate::Two(TwoGate::CZ {
            control: 1,
            target: 2,
        }))
        .unwrap();

    let qasm = export_qasm(&circuit);
    let imported = import_qasm(&qasm).unwrap();

    assert_eq!(circuit.num_qubits, imported.num_qubits);
    assert_eq!(circuit.gates.len(), imported.gates.len());
}
