//! OpenQASM in and out: the exact text, every statement and every error.

use quantum_error_analyzer::io::{export_qasm, import_qasm};
use quantum_error_analyzer::physics::circuit::{Circuit, Gate, SingleGate, TwoGate};

fn h(qubit: usize) -> Gate {
    Gate::Single { qubit, gate: SingleGate::H }
}

fn cnot(control: usize, target: usize) -> Gate {
    Gate::Two(TwoGate::CNOT { control, target })
}

fn circuit_of(num_qubits: usize, gates: Vec<Gate>) -> Circuit {
    Circuit::from_gates(num_qubits, gates).unwrap()
}

#[test]
fn test_export_exact_text() {
    let circuit = circuit_of(
        12,
        vec![
            h(0),
            Gate::Single { qubit: 1, gate: SingleGate::I },
            Gate::Single { qubit: 11, gate: SingleGate::Sdg },
            cnot(0, 10),
            Gate::Two(TwoGate::CZ { control: 2, target: 1 }),
            Gate::Two(TwoGate::SWAP { qubit1: 3, qubit2: 4 }),
            Gate::Single { qubit: 5, gate: SingleGate::S },
            Gate::Single { qubit: 6, gate: SingleGate::X },
            Gate::Single { qubit: 7, gate: SingleGate::Y },
            Gate::Single { qubit: 8, gate: SingleGate::Z },
        ],
    );
    assert_eq!(
        export_qasm(&circuit),
        "OPENQASM 2.0;\ninclude \"qelib1.inc\";\nqreg q[12];\n\nh q[0];\nsdg q[11];\n\
         cx q[0],q[10];\ncz q[2],q[1];\nswap q[3],q[4];\ns q[5];\nx q[6];\ny q[7];\nz q[8];\n"
    );
}

#[test]
fn test_export_of_an_empty_circuit() {
    assert_eq!(
        export_qasm(&Circuit::new(0)),
        "OPENQASM 2.0;\ninclude \"qelib1.inc\";\nqreg q[0];\n\n"
    );
}

#[test]
fn test_import_of_the_exported_text_gives_the_circuit_without_identities() {
    let circuit = circuit_of(
        3,
        vec![
            h(0),
            Gate::Single { qubit: 1, gate: SingleGate::I },
            cnot(0, 2),
            Gate::Two(TwoGate::SWAP { qubit1: 2, qubit2: 1 }),
            Gate::Single { qubit: 2, gate: SingleGate::Sdg },
        ],
    );
    let imported = import_qasm(&export_qasm(&circuit)).unwrap();
    let expected = circuit_of(
        3,
        vec![
            h(0),
            cnot(0, 2),
            Gate::Two(TwoGate::SWAP { qubit1: 2, qubit2: 1 }),
            Gate::Single { qubit: 2, gate: SingleGate::Sdg },
        ],
    );
    assert_eq!(imported, expected);
}

#[test]
fn test_import_every_gate() {
    let text = "qreg q[3];\nh q[0];\nx q[1];\ny q[2];\nz q[0];\ns q[1];\nsdg q[2];\n\
                cx q[0],q[1];\ncz q[1],q[2];\nswap q[2],q[0];\n";
    let expected = circuit_of(
        3,
        vec![
            h(0),
            Gate::Single { qubit: 1, gate: SingleGate::X },
            Gate::Single { qubit: 2, gate: SingleGate::Y },
            Gate::Single { qubit: 0, gate: SingleGate::Z },
            Gate::Single { qubit: 1, gate: SingleGate::S },
            Gate::Single { qubit: 2, gate: SingleGate::Sdg },
            cnot(0, 1),
            Gate::Two(TwoGate::CZ { control: 1, target: 2 }),
            Gate::Two(TwoGate::SWAP { qubit1: 2, qubit2: 0 }),
        ],
    );
    assert_eq!(import_qasm(text).unwrap(), expected);
}

#[test]
fn test_import_reads_names_in_either_case() {
    let circuit = import_qasm("qreg q[2];\nH q[0];\nCX q[0],q[1];\nSdG q[1];\nSwAp q[0],q[1];").unwrap();
    assert_eq!(
        circuit,
        circuit_of(
            2,
            vec![
                h(0),
                cnot(0, 1),
                Gate::Single { qubit: 1, gate: SingleGate::Sdg },
                Gate::Two(TwoGate::SWAP { qubit1: 0, qubit2: 1 }),
            ]
        )
    );
}

#[test]
fn test_import_passes_over_comments_and_white_space() {
    let text = "\r\n  // a comment\r\n\tOPENQASM 2.0;\r\n  include \"qelib1.inc\";\r\n\
                \u{a0}qreg   q[2] ;\r\n\r\n   h    q[0]   ;  \r\n  no semicolon here\n//h q[1];\nOPENQASM h q[1];";
    assert_eq!(import_qasm(text).unwrap(), circuit_of(2, vec![h(0)]));
}

#[test]
fn test_import_reads_the_second_word_only() {
    // What follows the second word of a statement is not read.
    let circuit = import_qasm("qreg q[2];\nh q[0] q[1] whatever;\n").unwrap();
    assert_eq!(circuit, circuit_of(2, vec![h(0)]));
    // A space behind the comma ends the operands: the second one is empty.
    assert_eq!(
        import_qasm("qreg q[2];\ncx q[0], q[1];\n").unwrap_err(),
        "Could not parse qubit index: "
    );
}

#[test]
fn test_import_operands_by_number() {
    let circuit = import_qasm("qreg q[3];\nh 2;\ncx 0,+1;\nx 001;").unwrap();
    assert_eq!(
        circuit,
        circuit_of(3, vec![h(2), cnot(0, 1), Gate::Single { qubit: 1, gate: SingleGate::X }])
    );
}

#[test]
fn test_import_register_of_another_name() {
    // Qubits are named q[i] whatever the register is called.
    let circuit = import_qasm("qreg anc[2];\nh q[1];").unwrap();
    assert_eq!(circuit, circuit_of(2, vec![h(1)]));
    assert_eq!(
        import_qasm("qreg anc[2];\nh anc[1];").unwrap_err(),
        "Could not parse qubit index: anc[1]"
    );
}

#[test]
fn test_import_new_register_starts_a_new_circuit() {
    let circuit = import_qasm("qreg q[3];\nh q[2];\nqreg q[2];\nx q[1];").unwrap();
    assert_eq!(circuit, circuit_of(2, vec![Gate::Single { qubit: 1, gate: SingleGate::X }]));
    // The names of the larger register stay known, but the circuit is the smaller one.
    assert_eq!(
        import_qasm("qreg q[3];\nqreg q[2];\nx q[2];").unwrap_err(),
        "Failed to add gate: Gate acts on qubit 2 but circuit has only 2 qubits"
    );
}

#[test]
fn test_import_declaration_without_a_size_is_passed_over() {
    assert_eq!(import_qasm("qreg q[2];\nqreg q;\nh q[1];").unwrap(), circuit_of(2, vec![h(1)]));
    assert_eq!(import_qasm("qreg q[2];\nqreg q[x];\nh q[1];").unwrap(), circuit_of(2, vec![h(1)]));
    assert_eq!(import_qasm("qreg q[2];\nqreg q[];\nh q[1];").unwrap(), circuit_of(2, vec![h(1)]));
    assert_eq!(import_qasm("qreg q[2];\nqreg ]3[;\nh q[1];").unwrap(), circuit_of(2, vec![h(1)]));
    assert_eq!(import_qasm("qreg q[2];\nqreg q[-1];\nh q[1];").unwrap(), circuit_of(2, vec![h(1)]));
    assert_eq!(
        import_qasm("qreg q[2];\nqreg q[99999999999999999999999999];\nh q[1];").unwrap(),
        circuit_of(2, vec![h(1)])
    );
    assert_eq!(import_qasm("qreg q[+4]").unwrap(), Circuit::new(4));
    assert_eq!(import_qasm("qreg q[1000000];").unwrap(), Circuit::new(1000000));
}

#[test]
fn test_import_without_a_register() {
    assert_eq!(import_qasm("").unwrap_err(), "No qubit register found in QASM file");
    assert_eq!(
        import_qasm("OPENQASM 2.0;\ninclude \"qelib1.inc\";\n").unwrap_err(),
        "No qubit register found in QASM file"
    );
    assert_eq!(import_qasm("qreg q[0];").unwrap_err(), "No qubit register found in QASM file");
    assert_eq!(import_qasm("qreg").unwrap_err(), "No qubit register found in QASM file");
    assert_eq!(import_qasm("qreg q[2]\nqreg q[0];").unwrap_err(), "No qubit register found in QASM file");
}

#[test]
fn test_import_unsupported_statement() {
    assert_eq!(import_qasm("qreg q[2];\nt q[0];").unwrap_err(), "Unsupported gate: t");
    assert_eq!(import_qasm("qreg q[2];\ncreg c[2];").unwrap_err(), "Unsupported gate: creg");
    assert_eq!(
        import_qasm("qreg q[2];\nMeasure q[0] -> c[0];").unwrap_err(),
        "Unsupported gate: measure"
    );
    assert_eq!(import_qasm("qreg q[2];\nh;q[0];").unwrap_err(), "Unsupported gate: h;q[0]");
    assert_eq!(import_qasm("h q[0];").unwrap_err(), "Could not parse qubit index: q[0]");
    assert_eq!(import_qasm(";").map(|_| ()), Err("No qubit register found in QASM file".to_string()));
}

#[test]
fn test_import_wrong_number_of_operands() {
    assert_eq!(
        import_qasm("qreg q[2];\nh q[0],q[1];").unwrap_err(),
        "Single-qubit gate h requires exactly one qubit"
    );
    assert_eq!(
        import_qasm("qreg q[2];\nSDG;").unwrap_err(),
        "Single-qubit gate sdg requires exactly one qubit"
    );
    assert_eq!(
        import_qasm("qreg q[2];\ncx q[0];").unwrap_err(),
        "CNOT gate requires exactly two qubits"
    );
    assert_eq!(
        import_qasm("qreg q[3];\ncz q[0],q[1],q[2];").unwrap_err(),
        "CZ gate requires exactly two qubits"
    );
    assert_eq!(import_qasm("qreg q[3];\nswap;").unwrap_err(), "SWAP gate requires exactly two qubits");
    assert_eq!(
        import_qasm("qreg q[3];\ncx q[0],q[1],;").unwrap_err(),
        "CNOT gate requires exactly two qubits"
    );
}

#[test]
fn test_import_operand_that_is_no_qubit() {
    assert_eq!(
        import_qasm("qreg q[2];\nh r[0];").unwrap_err(),
        "Could not parse qubit index: r[0]"
    );
    assert_eq!(
        import_qasm("qreg q[2];\nh q[01];").unwrap_err(),
        "Could not parse qubit index: q[01]"
    );
    assert_eq!(
        import_qasm("qreg q[2];\nh q[2];").unwrap_err(),
        "Could not parse qubit index: q[2]"
    );
    assert_eq!(
        import_qasm("qreg q[2];\ncx q[0],-1;").unwrap_err(),
        "Could not parse qubit index: -1"
    );
    assert_eq!(
        import_qasm("qreg q[2];\ncx ,q[0];").unwrap_err(),
        "Could not parse qubit index: "
    );
    assert_eq!(
        import_qasm("qreg q[2];\nh 99999999999999999999999999;").unwrap_err(),
        "Could not parse qubit index: 99999999999999999999999999"
    );
    assert_eq!(import_qasm("qreg q[2];\nh +;").unwrap_err(), "Could not parse qubit index: +");
}

#[test]
fn test_import_gate_out_of_range() {
    assert_eq!(
        import_qasm("qreg q[2];\nh 5;").unwrap_err(),
        "Failed to add gate: Gate acts on qubit 5 but circuit has only 2 qubits"
    );
    assert_eq!(
        import_qasm("qreg q[2];\ncx 1,2;").unwrap_err(),
        "Failed to add gate: Gate acts on qubit 2 but circuit has only 2 qubits"
    );
}

#[test]
fn test_import_stops_at_the_first_error() {
    assert_eq!(
        import_qasm("qreg q[2];\nfoo q[0];\nbar q[1];").unwrap_err(),
        "Unsupported gate: foo"
    );
    assert_eq!(
        import_qasm("foo q[0];\nqreg q[2];").unwrap_err(),
        "Unsupported gate: foo"
    );
}

#[test]
fn test_import_the_same_circuit_from_two_texts() {
    let plain = import_qasm("qreg q[2];\nh q[0];\ncx q[0],q[1];").unwrap();
    let dressed = import_qasm(
        "// Bell pair\nOPENQASM 2.0;\ninclude \"qelib1.inc\";\n\nqreg q[2];\n\n  H 0;\n  CX +0,q[1];\n",
    )
    .unwrap();
    assert_eq!(plain, dressed);
    assert_eq!(plain, circuit_of(2, vec![h(0), cnot(0, 1)]));
}
