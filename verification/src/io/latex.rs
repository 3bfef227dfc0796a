//! Circuits as LaTeX: a diagram for the package `qcircuit`, and a plain list
//! of the gates.

use crate::physics::circuit::{Circuit, Gate, SingleGate, TwoGate};
use crate::text::{decimal, push_decimal};
use vstd::prelude::*;
use vstd::string::StringExecFns;

verus! {

/// The cell of a wire that no gate acts on.
pub open spec fn wire() -> Seq<char> {
    "\\qw"@
}

/// The cell of a single-qubit gate: a box with its name. The identity is a
/// plain wire.
pub open spec fn single_gate_cell(gate: SingleGate) -> Seq<char> {
    match gate {
        SingleGate::H => "\\gate{H}"@,
        SingleGate::S => "\\gate{S}"@,
        SingleGate::Sdg => "\\gate{S^\\dagger}"@,
        SingleGate::X => "\\gate{X}"@,
        SingleGate::Y => "\\gate{Y}"@,
        SingleGate::Z => "\\gate{Z}"@,
        SingleGate::I => wire(),
    }
}

/// The distance between two qubits.
pub open spec fn distance(a: usize, b: usize) -> nat {
    if a > b {
        (a - b) as nat
    } else {
        (b - a) as nat
    }
}

/// The cell of `gate` on the wire of qubit `qubit`.
///
/// A single-qubit gate has its box on its own wire. CNOT has a control on
/// the wire of its control, with the distance to the target, and a target
/// mark on the wire of its target; CZ has its two marks; SWAP has a cross on
/// each of its two wires if they are two. Any other wire is plain.
pub open spec fn cell(gate: Gate, qubit: usize) -> Seq<char> {
    match gate {
        Gate::Single { qubit: q, gate } => if q == qubit {
            single_gate_cell(gate)
        } else {
            wire()
        },
        Gate::Two(TwoGate::CNOT { control, target }) => if control == qubit {
            "\\ctrl{"@ + decimal(distance(target, qubit)) + "}"@
        } else if target == qubit {
            "\\targ"@
        } else {
            wire()
        },
        Gate::Two(TwoGate::CZ { control, target }) => if control == qubit {
            "\\control"@
        } else if target == qubit {
            "\\controlo"@
        } else {
            wire()
        },
        Gate::Two(TwoGate::SWAP { qubit1, qubit2 }) => if (qubit1 == qubit) != (qubit2 == qubit) {
            "\\qswap"@
        } else {
            wire()
        },
    }
}

/// The first `k` cells of the wire of qubit `qubit`, each but the last cell
/// of the wire followed by ` & `.
pub open spec fn cells(gates: Seq<Gate>, qubit: usize, k: nat) -> Seq<char>
    decreases k,
{
    if k == 0 {
        Seq::empty()
    } else {
        cells(gates, qubit, (k - 1) as nat) + cell(gates[k - 1], qubit) + (if k < gates.len() {
            " & "@
        } else {
            Seq::empty()
        })
    }
}

/// The rows of the first `k` wires, each with the end of a row behind it.
pub open spec fn rows(gates: Seq<Gate>, k: nat) -> Seq<char>
    decreases k,
{
    if k == 0 {
        Seq::empty()
    } else {
        rows(gates, (k - 1) as nat) + cells(gates, (k - 1) as usize, gates.len()) + " \\\\\n"@
    }
}

/// What stands before the rows of the diagram.
pub open spec fn diagram_head() -> Seq<char> {
    "\\documentclass{article}\n"@ + "\\usepackage{qcircuit}\n"@ + "\\begin{document}\n"@
        + "\\begin{equation*}\n"@ + "\\Qcircuit @C=1em @R=.7em {\n"@
}

/// What stands behind the rows of the diagram.
pub open spec fn diagram_foot() -> Seq<char> {
    "}\n"@ + "\\end{equation*}\n"@ + "\\end{document}\n"@
}

/// The diagram of a circuit: one row per qubit, one column per gate.
pub open spec fn diagram(num_qubits: usize, gates: Seq<Gate>) -> Seq<char> {
    diagram_head() + rows(gates, num_qubits as nat) + diagram_foot()
}

/// The lines `Gate i: ...` of the first `k` gates.
pub open spec fn listed(gates: Seq<Gate>, k: nat) -> Seq<char>
    decreases k,
{
    if k == 0 {
        Seq::empty()
    } else {
        listed(gates, (k - 1) as nat) + "Gate "@ + decimal((k - 1) as nat) + ": "@ + gates[k
            - 1].text() + "\n"@
    }
}

/// What stands before the list of the gates.
pub open spec fn listing_head(num_qubits: nat, depth: nat) -> Seq<char> {
    "\\documentclass{article}\n"@ + "\\usepackage{tikz}\n"@ + "\\begin{document}\n"@
        + "Circuit with "@ + decimal(num_qubits) + " qubits and "@ + decimal(depth)
        + " gates:\n\n"@ + "\\begin{verbatim}\n"@
}

/// What stands behind the list of the gates.
pub open spec fn listing_foot() -> Seq<char> {
    "\\end{verbatim}\n"@ + "\\end{document}\n"@
}

/// A circuit as a list of its gates, set verbatim.
pub open spec fn listing(num_qubits: usize, gates: Seq<Gate>) -> Seq<char> {
    listing_head(num_qubits as nat, gates.len()) + listed(gates, gates.len()) + listing_foot()
}

/// The cell of a single-qubit gate.
fn format_single_gate_latex(gate: SingleGate) -> (r: String)
    ensures
        r@ == single_gate_cell(gate),
{
    match gate {
        SingleGate::H => String::from_str("\\gate{H}"),
        SingleGate::S => String::from_str("\\gate{S}"),
        SingleGate::Sdg => String::from_str("\\gate{S^\\dagger}"),
        SingleGate::X => String::from_str("\\gate{X}"),
        SingleGate::Y => String::from_str("\\gate{Y}"),
        SingleGate::Z => String::from_str("\\gate{Z}"),
        SingleGate::I => String::from_str("\\qw"),
    }
}

/// Appends the cell of `gate` on the wire of qubit `qubit`.
fn push_cell(line: &mut String, gate: &Gate, qubit: usize)
    ensures
        final(line)@ == old(line)@ + cell(*gate, qubit),
{
    match gate {
        Gate::Single { qubit: q, gate } => {
            if *q == qubit {
                let boxed = format_single_gate_latex(*gate);
                line.append(boxed.as_str());
            } else {
                line.append("\\qw");
            }
        },
        Gate::Two(two_gate) => match two_gate {
            TwoGate::CNOT { control, target } => {
                if *control == qubit {
                    line.append("\\ctrl{");
                    let target_idx = if *target > qubit {
                        *target - qubit
                    } else {
                        qubit - *target
                    };
                    push_decimal(line, target_idx);
                    line.append("}");
                } else if *target == qubit {
                    line.append("\\targ");
                } else {
                    line.append("\\qw");
                }
            },
            TwoGate::CZ { control, target } => {
                if *control == qubit {
                    line.append("\\control");
                } else if *target == qubit {
                    line.append("\\controlo");
                } else {
                    line.append("\\qw");
                }
            },
            TwoGate::SWAP { qubit1, qubit2 } => {
                if (*qubit1 == qubit && *qubit2 != qubit) || (*qubit2 == qubit && *qubit1
                    != qubit) {
                    line.append("\\qswap");
                } else {
                    line.append("\\qw");
                }
            },
        },
    }
    assert(line@ =~= old(line)@ + cell(*gate, qubit));
}

/// Draws the circuit as a diagram for `qcircuit`: one row per qubit, and in
/// each row one cell per gate, in the order of the circuit.
pub fn export_latex(circuit: &Circuit) -> (latex: String)
    ensures
        latex@ == diagram(circuit.num_qubits, circuit.gates@),
{
    let mut latex = String::from_str("\\documentclass{article}\n");
    latex.append("\\usepackage{qcircuit}\n");
    latex.append("\\begin{document}\n");
    latex.append("\\begin{equation*}\n");
    latex.append("\\Qcircuit @C=1em @R=.7em {\n");
    let depth = circuit.gates.len();
    let mut qubit: usize = 0;
    while qubit < circuit.num_qubits
        invariant
            qubit <= circuit.num_qubits,
            depth == circuit.gates@.len(),
            latex@ == diagram_head() + rows(circuit.gates@, qubit as nat),
        decreases circuit.num_qubits - qubit,
    {
        let mut line = String::new();
        let mut time: usize = 0;
        while time < depth
            invariant
                time <= depth,
                depth == circuit.gates@.len(),
                line@ == cells(circuit.gates@, qubit, time as nat),
            decreases depth - time,
        {
            let ghost before = line@;
            push_cell(&mut line, &circuit.gates[time], qubit);
            if time < depth - 1 {
                line.append(" & ");
            }
            time += 1;
            assert(line@ =~= cells(circuit.gates@, qubit, time as nat));
        }
        let ghost before = latex@;
        latex.append(line.as_str());
        latex.append(" \\\\\n");
        qubit += 1;
        assert(latex@ =~= diagram_head() + rows(circuit.gates@, qubit as nat));
    }
    latex.append("}\n");
    latex.append("\\end{equation*}\n");
    latex.append("\\end{document}\n");
    assert(latex@ =~= diagram(circuit.num_qubits, circuit.gates@));
    latex
}

/// Lists the gates of the circuit, one per line, set verbatim, under a line
/// that gives the numbers of qubits and of gates.
pub fn export_latex_simple(circuit: &Circuit) -> (latex: String)
    ensures
        latex@ == listing(circuit.num_qubits, circuit.gates@),
{
    let mut latex = String::from_str("\\documentclass{article}\n");
    latex.append("\\usepackage{tikz}\n");
    latex.append("\\begin{document}\n");
    latex.append("Circuit with ");
    push_decimal(&mut latex, circuit.num_qubits);
    latex.append(" qubits and ");
    push_decimal(&mut latex, circuit.gates.len());
    latex.append(" gates:\n\n");
    latex.append("\\begin{verbatim}\n");
    assert(latex@ =~= listing_head(circuit.num_qubits as nat, circuit.gates@.len()));
    let mut i: usize = 0;
    while i < circuit.gates.len()
        invariant
            i <= circuit.gates.len(),
            latex@ == listing_head(circuit.num_qubits as nat, circuit.gates@.len()) + listed(
                circuit.gates@,
                i as nat,
            ),
        decreases circuit.gates.len() - i,
    {
        let shown = circuit.gates[i].to_string();
        latex.append("Gate ");
        push_decimal(&mut latex, i);
        latex.append(": ");
        latex.append(shown.as_str());
        latex.append("\n");
        i += 1;
        assert(latex@ =~= listing_head(circuit.num_qubits as nat, circuit.gates@.len()) + listed(
            circuit.gates@,
            i as nat,
        ));
    }
    latex.append("\\end{verbatim}\n");
    latex.append("\\end{document}\n");
    assert(latex@ =~= listing(circuit.num_qubits, circuit.gates@));
    latex
}

} // verus!
