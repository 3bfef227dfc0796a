//! What a front end needs to speak of gates, operators and phases by their
//! labels: the labels are plain text, as a user types and reads them.

use crate::physics::circuit::SingleGate;
use crate::physics::pauli::{PauliModel, PauliString, Phase, SinglePauli};
use crate::text::{chars_of, range_is};
use vstd::prelude::*;
use vstd::string::StringExecFns;

verus! {

/// The single-qubit gate with the given label. The labels are the names of
/// the gates, letter for letter.
pub open spec fn single_gate_labelled(label: Seq<char>) -> Option<SingleGate> {
    if label == "H"@ {
        Some(SingleGate::H)
    } else if label == "S"@ {
        Some(SingleGate::S)
    } else if label == "Sdg"@ {
        Some(SingleGate::Sdg)
    } else if label == "X"@ {
        Some(SingleGate::X)
    } else if label == "Y"@ {
        Some(SingleGate::Y)
    } else if label == "Z"@ {
        Some(SingleGate::Z)
    } else if label == "I"@ {
        Some(SingleGate::I)
    } else {
        None
    }
}

/// The Pauli operator with the given label: one of `X`, `Y`, `Z`, `I`.
pub open spec fn pauli_labelled(label: Seq<char>) -> Option<SinglePauli> {
    if label == "X"@ {
        Some(SinglePauli::X)
    } else if label == "Y"@ {
        Some(SinglePauli::Y)
    } else if label == "Z"@ {
        Some(SinglePauli::Z)
    } else if label == "I"@ {
        Some(SinglePauli::I)
    } else {
        None
    }
}

/// The label of a phase in plain ASCII: nothing for +1, `-` for -1.
pub open spec fn phase_label_text(phase: Phase) -> Seq<char> {
    match phase {
        Phase::PlusOne => ""@,
        Phase::MinusOne => "-"@,
        Phase::PlusI => "i"@,
        Phase::MinusI => "-i"@,
    }
}

/// The letters of the first `k` qubits of an operator, nothing between them.
pub open spec fn pattern_text(p: PauliModel, k: nat) -> Seq<char>
    decreases k,
{
    if k == 0 {
        Seq::empty()
    } else {
        pattern_text(p, (k - 1) as nat).push(p.pauli_at(k - 1).letter())
    }
}

/// Finds the single-qubit gate with the given label.
pub fn single_gate_from_label(label: &str) -> (r: Option<SingleGate>)
    ensures
        r == single_gate_labelled(label@),
{
    let chars = chars_of(label);
    let n = chars.len();
    assert(chars@.subrange(0, n as int) =~= label@);
    if range_is(&chars, 0, n, "H") {
        Some(SingleGate::H)
    } else if range_is(&chars, 0, n, "S") {
        Some(SingleGate::S)
    } else if range_is(&chars, 0, n, "Sdg") {
        Some(SingleGate::Sdg)
    } else if range_is(&chars, 0, n, "X") {
        Some(SingleGate::X)
    } else if range_is(&chars, 0, n, "Y") {
        Some(SingleGate::Y)
    } else if range_is(&chars, 0, n, "Z") {
        Some(SingleGate::Z)
    } else if range_is(&chars, 0, n, "I") {
        Some(SingleGate::I)
    } else {
        None
    }
}

/// Finds the Pauli operator with the given label.
pub fn pauli_from_label(label: &str) -> (r: Option<SinglePauli>)
    ensures
        r == pauli_labelled(label@),
{
    let chars = chars_of(label);
    let n = chars.len();
    assert(chars@.subrange(0, n as int) =~= label@);
    if range_is(&chars, 0, n, "X") {
        Some(SinglePauli::X)
    } else if range_is(&chars, 0, n, "Y") {
        Some(SinglePauli::Y)
    } else if range_is(&chars, 0, n, "Z") {
        Some(SinglePauli::Z)
    } else if range_is(&chars, 0, n, "I") {
        Some(SinglePauli::I)
    } else {
        None
    }
}

/// The label of a phase in plain ASCII.
pub fn phase_label(phase: Phase) -> (r: String)
    ensures
        r@ == phase_label_text(phase),
{
    match phase {
        Phase::PlusOne => String::from_str(""),
        Phase::MinusOne => String::from_str("-"),
        Phase::PlusI => String::from_str("i"),
        Phase::MinusI => String::from_str("-i"),
    }
}

/// The letters of an operator, one per qubit and nothing between them: the
/// pattern without its phase.
pub fn pattern_label(pauli: &PauliString) -> (r: String)
    requires
        pauli.wf(),
    ensures
        r@ == pattern_text(pauli@, pauli@.num_qubits()),
{
    let mut out = String::new();
    let n = pauli.num_qubits();
    let mut q: usize = 0;
    while q < n
        invariant
            pauli.wf(),
            q <= n == pauli@.num_qubits(),
            out@ == pattern_text(pauli@, q as nat),
        decreases n - q,
    {
        out.push(pauli.get_pauli(q).to_char());
        q += 1;
    }
    out
}

} // verus!
