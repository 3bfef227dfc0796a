//! Circuits in OpenQASM 2.0.

use crate::physics::circuit::{out_of_range_error, Circuit, Gate, SingleGate, TwoGate};
use crate::text::{
    all_digits, ascii_lower, chars_of, decimal, digits_value, find_char,
    first_word, lemma_split_commas_len, lowered, parse_digits, parse_number, parse_unsigned,
    position, push_chars, push_decimal, range_is, range_starts_with, second_word, split_commas,
    starts_with, trim, trim_range, word_range,
};
use vstd::prelude::*;
use vstd::string::StringExecFns;

verus! {

/// The word that OpenQASM has for a single-qubit gate. The identity has none.
pub open spec fn single_gate_word(gate: SingleGate) -> Seq<char> {
    match gate {
        SingleGate::H => "h"@,
        SingleGate::S => "s"@,
        SingleGate::Sdg => "sdg"@,
        SingleGate::X => "x"@,
        SingleGate::Y => "y"@,
        SingleGate::Z => "z"@,
        SingleGate::I => ""@,
    }
}

/// The word that OpenQASM has for a two-qubit gate.
pub open spec fn two_gate_word(gate: TwoGate) -> Seq<char> {
    match gate {
        TwoGate::CNOT { .. } => "cx"@,
        TwoGate::CZ { .. } => "cz"@,
        TwoGate::SWAP { .. } => "swap"@,
    }
}

/// The line of a gate in OpenQASM, with its line end. The identity gate is
/// left out: it has no line.
pub open spec fn gate_line(gate: Gate) -> Seq<char> {
    match gate {
        Gate::Single { qubit, gate } => if gate == SingleGate::I {
            Seq::empty()
        } else {
            single_gate_word(gate) + " q["@ + decimal(qubit as nat) + "];\n"@
        },
        Gate::Two(two) => two_gate_word(two) + " q["@ + decimal(two.operands().0 as nat)
            + "],q["@ + decimal(two.operands().1 as nat) + "];\n"@,
    }
}

/// The lines of the gates, in their order.
pub open spec fn gate_lines(gates: Seq<Gate>) -> Seq<char>
    decreases gates.len(),
{
    if gates.len() == 0 {
        Seq::empty()
    } else {
        gate_lines(gates.drop_last()) + gate_line(gates.last())
    }
}

/// What stands before the gates: the version, the standard gate library,
/// one register `q` with all the qubits, and an empty line.
pub open spec fn header(num_qubits: nat) -> Seq<char> {
    "OPENQASM 2.0;\n"@ + "include \"qelib1.inc\";\n"@ + "qreg q["@ + decimal(num_qubits)
        + "];\n"@ + "\n"@
}

/// A circuit in OpenQASM 2.0.
pub open spec fn qasm_text(num_qubits: nat, gates: Seq<Gate>) -> Seq<char> {
    header(num_qubits) + gate_lines(gates)
}

/// Writes the circuit in OpenQASM 2.0: the header, then one line per gate in
/// the order of the circuit, identity gates left out.
pub fn export_qasm(circuit: &Circuit) -> (qasm: String)
    ensures
        qasm@ == qasm_text(circuit.num_qubits as nat, circuit.gates@),
{
    let mut qasm = String::from_str("OPENQASM 2.0;\n");
    qasm.append("include \"qelib1.inc\";\n");
    qasm.append("qreg q[");
    push_decimal(&mut qasm, circuit.num_qubits);
    qasm.append("];\n");
    qasm.append("\n");
    let mut i: usize = 0;
    while i < circuit.gates.len()
        invariant
            i <= circuit.gates.len(),
            qasm@ == header(circuit.num_qubits as nat) + gate_lines(circuit.gates@.take(i as int)),
        decreases circuit.gates.len() - i,
    {
        let ghost before = qasm@;
        match &circuit.gates[i] {
            Gate::Single { qubit, gate } => {
                let word = match gate {
                    SingleGate::H => "h",
                    SingleGate::S => "s",
                    SingleGate::Sdg => "sdg",
                    SingleGate::X => "x",
                    SingleGate::Y => "y",
                    SingleGate::Z => "z",
                    SingleGate::I => "",
                };
                if !matches!(gate, SingleGate::I) {
                    qasm.append(word);
                    qasm.append(" q[");
                    push_decimal(&mut qasm, *qubit);
                    qasm.append("];\n");
                }
            },
            Gate::Two(two_gate) => {
                let (word, first, second) = match two_gate {
                    TwoGate::CNOT { control, target } => ("cx", *control, *target),
                    TwoGate::CZ { control, target } => ("cz", *control, *target),
                    TwoGate::SWAP { qubit1, qubit2 } => ("swap", *qubit1, *qubit2),
                };
                qasm.append(word);
                qasm.append(" q[");
                push_decimal(&mut qasm, first);
                qasm.append("],q[");
                push_decimal(&mut qasm, second);
                qasm.append("];\n");
            },
        }
        proof {
            let gates = circuit.gates@;
            assert(gates.take(i + 1).drop_last() =~= gates.take(i as int));
            assert(gates.take(i + 1).last() == gates[i as int]);
            assert(qasm@ =~= before + gate_line(gates[i as int]));
            assert(qasm@ =~= header(circuit.num_qubits as nat) + gate_lines(gates.take(i + 1)));
        }
        i += 1;
    }
    assert(circuit.gates@.take(circuit.gates@.len() as int) =~= circuit.gates@);
    qasm
}

/// What has been read of a text in OpenQASM.
pub struct Reading {
    /// The size of the register declared last, 0 before any.
    pub num_qubits: usize,
    /// The gates read since that declaration.
    pub gates: Seq<Gate>,
    /// How many qubits have a name: `q[0]` up to `q[known - 1]`. It is the
    /// largest size declared so far.
    pub known: usize,
}

/// The size that a line `qreg name[size];` declares: the numeral between the
/// first `[` and the first `]` of the second word. None where the brackets
/// are missing or out of order, or hold no numeral.
pub open spec fn register_size(line: Seq<char>) -> Option<usize> {
    let part = second_word(line);
    let open = position(part, '[');
    let close = position(part, ']');
    if open < close && close < part.len() {
        parse_unsigned(part.subrange(open as int + 1, close as int))
    } else {
        None
    }
}

/// The qubit that `s` names: `s` is `q[i]`, with `i` in decimal as it is
/// written without a sign or a leading zero, and `i` below `known`.
pub open spec fn named_qubit(s: Seq<char>, known: nat) -> Option<usize> {
    let inner = s.subrange(2, s.len() - 1);
    if s.len() >= 3 && s[0] == 'q' && s[1] == '[' && s.last() == ']' && inner.len() > 0
        && all_digits(inner) && digits_value(inner) < known && decimal(digits_value(inner))
        == inner {
        Some(digits_value(inner) as usize)
    } else {
        None
    }
}

/// What is reported for an operand that is neither the name of a qubit nor a
/// numeral.
pub open spec fn no_qubit_error(s: Seq<char>) -> Seq<char> {
    "Could not parse qubit index: "@ + s
}

/// The qubit that an operand stands for: by its name, or else by its number
/// alone.
pub open spec fn qubit_index(s: Seq<char>, known: nat) -> Result<usize, Seq<char>> {
    match named_qubit(s, known) {
        Some(i) => Ok(i),
        None => match parse_unsigned(s) {
            Some(i) => Ok(i),
            None => Err(no_qubit_error(s)),
        },
    }
}

/// The single-qubit gate with the given word.
pub open spec fn single_gate_named(name: Seq<char>) -> Option<SingleGate> {
    if name == "h"@ {
        Some(SingleGate::H)
    } else if name == "x"@ {
        Some(SingleGate::X)
    } else if name == "y"@ {
        Some(SingleGate::Y)
    } else if name == "z"@ {
        Some(SingleGate::Z)
    } else if name == "s"@ {
        Some(SingleGate::S)
    } else if name == "sdg"@ {
        Some(SingleGate::Sdg)
    } else {
        None
    }
}

/// The two-qubit gate with the given word, on the given qubits.
pub open spec fn two_gate_named(name: Seq<char>, first: usize, second: usize) -> Option<TwoGate> {
    if name == "cx"@ {
        Some(TwoGate::CNOT { control: first, target: second })
    } else if name == "cz"@ {
        Some(TwoGate::CZ { control: first, target: second })
    } else if name == "swap"@ {
        Some(TwoGate::SWAP { qubit1: first, qubit2: second })
    } else {
        None
    }
}

/// What is reported for a single-qubit gate that has not one operand.
pub open spec fn one_operand_error(name: Seq<char>) -> Seq<char> {
    "Single-qubit gate "@ + name + " requires exactly one qubit"@
}

/// What is reported for a two-qubit gate that has not two operands.
pub open spec fn two_operands_error(gate: TwoGate) -> Seq<char> {
    match gate {
        TwoGate::CNOT { .. } => "CNOT gate requires exactly two qubits"@,
        TwoGate::CZ { .. } => "CZ gate requires exactly two qubits"@,
        TwoGate::SWAP { .. } => "SWAP gate requires exactly two qubits"@,
    }
}

/// What is reported for a word that names no gate.
pub open spec fn unsupported_error(name: Seq<char>) -> Seq<char> {
    "Unsupported gate: "@ + name
}

/// What is reported for a gate on a qubit that the register does not have.
pub open spec fn not_added_error(gate: Gate, num_qubits: nat) -> Seq<char> {
    "Failed to add gate: "@ + out_of_range_error(
        gate.first_out_of_range(num_qubits) as nat,
        num_qubits,
    )
}

/// The operands of a statement: the pieces between the commas of its second
/// word, none if it has one word only. What follows the second word is not
/// read.
pub open spec fn operand_list(statement: Seq<char>) -> Seq<Seq<char>> {
    if second_word(statement).len() == 0 {
        Seq::empty()
    } else {
        split_commas(second_word(statement))
    }
}

/// Which gate a statement describes: `name` is its first word in lower
/// case, `operands` are its operands.
pub open spec fn read_gate(name: Seq<char>, operands: Seq<Seq<char>>, known: nat) -> Result<
    Gate,
    Seq<char>,
> {
    if let Some(gate) = single_gate_named(name) {
        if operands.len() != 1 {
            Err(one_operand_error(name))
        } else {
            match qubit_index(trim(operands[0]), known) {
                Err(e) => Err(e),
                Ok(qubit) => Ok(Gate::Single { qubit, gate }),
            }
        }
    } else if two_gate_named(name, 0, 0) is Some {
        if operands.len() != 2 {
            Err(two_operands_error(two_gate_named(name, 0, 0).unwrap()))
        } else {
            match qubit_index(trim(operands[0]), known) {
                Err(e) => Err(e),
                Ok(first) => match qubit_index(trim(operands[1]), known) {
                    Err(e) => Err(e),
                    Ok(second) => Ok(Gate::Two(two_gate_named(name, first, second).unwrap())),
                },
            }
        }
    } else {
        Err(unsupported_error(name))
    }
}

/// Whether a line says nothing of the circuit: an empty line, a comment, the
/// version or the line of a library.
pub open spec fn is_skipped(line: Seq<char>) -> bool {
    line.len() == 0 || starts_with(line, "//"@) || starts_with(line, "OPENQASM"@) || starts_with(
        line,
        "include"@,
    )
}

/// What has been read after one more line, given without the white space at
/// its ends.
///
/// A declaration `qreg` starts a new circuit of the declared size, and is
/// passed over where no size can be read from it. A line that ends in `;` is
/// a gate, added to the circuit; its word is read in either case. Any other
/// line is passed over.
pub open spec fn read_line(state: Reading, line: Seq<char>) -> Result<Reading, Seq<char>> {
    if is_skipped(line) {
        Ok(state)
    } else if starts_with(line, "qreg "@) {
        match register_size(line) {
            Some(n) => Ok(
                Reading {
                    num_qubits: n,
                    gates: Seq::empty(),
                    known: if n > state.known {
                        n
                    } else {
                        state.known
                    },
                },
            ),
            None => Ok(state),
        }
    } else if line.last() == ';' {
        let statement = line.drop_last();
        if first_word(statement).len() == 0 {
            Ok(state)
        } else {
            match read_gate(
                ascii_lower(first_word(statement)),
                operand_list(statement),
                state.known as nat,
            ) {
                Err(e) => Err(e),
                Ok(gate) => if gate.in_range(state.num_qubits as nat) {
                    Ok(Reading { gates: state.gates.push(gate), ..state })
                } else {
                    Err(not_added_error(gate, state.num_qubits as nat))
                },
            }
        }
    } else {
        Ok(state)
    }
}

/// What follows the first line of a text.
pub open spec fn after_first_line(text: Seq<char>) -> Seq<char> {
    if position(text, '\n') < text.len() {
        text.skip(position(text, '\n') as int + 1)
    } else {
        Seq::empty()
    }
}

/// What has been read after all the lines of `text`, or the first error.
pub open spec fn read_lines(state: Reading, text: Seq<char>) -> Result<Reading, Seq<char>>
    decreases text.len(),
{
    if text.len() == 0 {
        Ok(state)
    } else {
        match read_line(state, trim(text.take(position(text, '\n') as int))) {
            Err(e) => Err(e),
            Ok(next) => read_lines(next, after_first_line(text)),
        }
    }
}

/// What is reported for a text that declares no qubit.
pub open spec fn no_register_error() -> Seq<char> {
    "No qubit register found in QASM file"@
}

/// The circuit that a text in OpenQASM describes, or the first error in it.
pub open spec fn read_qasm(text: Seq<char>) -> Result<Reading, Seq<char>> {
    match read_lines(Reading { num_qubits: 0, gates: Seq::empty(), known: 0 }, text) {
        Err(e) => Err(e),
        Ok(state) => if state.num_qubits == 0 {
            Err(no_register_error())
        } else {
            Ok(state)
        },
    }
}

/// The size that the declaration in `text[from..to]` gives.
fn parse_register_size(text: &Vec<char>, from: usize, to: usize) -> (r: Option<usize>)
    requires
        from <= to <= text.len(),
    ensures
        r == register_size(text@.subrange(from as int, to as int)),
{
    let (_, first_end) = word_range(text, from, to);
    let (a, b) = word_range(text, first_end, to);
    let open = find_char(text, a, b, '[');
    let close = find_char(text, a, b, ']');
    if open < close && close < b {
        proof {
            let part = text@.subrange(a as int, b as int);
            assert(text@.subrange(open + 1, close as int) =~= part.subrange(
                open - a + 1,
                close - a,
            ));
        }
        parse_number(text, open + 1, close)
    } else {
        None
    }
}

/// The qubit that `text[from..to]` names.
fn parse_named_qubit(text: &Vec<char>, from: usize, to: usize, known: usize) -> (r: Option<
    usize,
>)
    requires
        from <= to <= text.len(),
    ensures
        r == named_qubit(text@.subrange(from as int, to as int), known as nat),
{
    let ghost s = text@.subrange(from as int, to as int);
    if to - from < 3 || text[from] != 'q' || text[from + 1] != '[' || text[to - 1] != ']' {
        return None;
    }
    assert(text@.subrange(from + 2, to - 1) =~= s.subrange(2, s.len() - 1));
    match parse_digits(text, from + 2, to - 1) {
        None => None,
        Some(i) => {
            if i >= known {
                return None;
            }
            let mut canonical = String::new();
            push_decimal(&mut canonical, i);
            assert(canonical@ =~= decimal(i as nat));
            if range_is(text, from + 2, to - 1, canonical.as_str()) {
                Some(i)
            } else {
                None
            }
        },
    }
}

/// The qubit that the operand `text[from..to]` stands for.
fn parse_qubit_index(text: &Vec<char>, from: usize, to: usize, known: usize) -> (r: Result<
    usize,
    String,
>)
    requires
        from <= to <= text.len(),
    ensures
        r matches Ok(i) ==> qubit_index(text@.subrange(from as int, to as int), known as nat)
            == Ok::<usize, Seq<char>>(i),
        r matches Err(e) ==> qubit_index(text@.subrange(from as int, to as int), known as nat)
            == Err::<usize, Seq<char>>(e@),
{
    if let Some(index) = parse_named_qubit(text, from, to, known) {
        return Ok(index);
    }
    if let Some(index) = parse_number(text, from, to) {
        return Ok(index);
    }
    let mut e = String::from_str("Could not parse qubit index: ");
    push_chars(&mut e, text, from, to);
    Err(e)
}

/// The qubit that the operand `text[from..to]` stands for, white space at
/// its ends left out.
fn parse_operand(text: &Vec<char>, from: usize, to: usize, known: usize) -> (r: Result<
    usize,
    String,
>)
    requires
        from <= to <= text.len(),
    ensures
        r matches Ok(i) ==> qubit_index(
            trim(text@.subrange(from as int, to as int)),
            known as nat,
        ) == Ok::<usize, Seq<char>>(i),
        r matches Err(e) ==> qubit_index(
            trim(text@.subrange(from as int, to as int)),
            known as nat,
        ) == Err::<usize, Seq<char>>(e@),
{
    let (a, b) = trim_range(text, from, to);
    parse_qubit_index(text, a, b, known)
}

/// The single-qubit gate that a word in lower case names.
fn single_gate_for(name: &Vec<char>) -> (r: Option<SingleGate>)
    ensures
        r == single_gate_named(name@),
{
    let n = name.len();
    assert(name@.subrange(0, n as int) =~= name@);
    if range_is(name, 0, n, "h") {
        Some(SingleGate::H)
    } else if range_is(name, 0, n, "x") {
        Some(SingleGate::X)
    } else if range_is(name, 0, n, "y") {
        Some(SingleGate::Y)
    } else if range_is(name, 0, n, "z") {
        Some(SingleGate::Z)
    } else if range_is(name, 0, n, "s") {
        Some(SingleGate::S)
    } else if range_is(name, 0, n, "sdg") {
        Some(SingleGate::Sdg)
    } else {
        None
    }
}

/// The two-qubit gate that a word in lower case names, on the given qubits.
fn two_gate_for(name: &Vec<char>, first: usize, second: usize) -> (r: Option<TwoGate>)
    ensures
        r == two_gate_named(name@, first, second),
{
    let n = name.len();
    assert(name@.subrange(0, n as int) =~= name@);
    if range_is(name, 0, n, "cx") {
        Some(TwoGate::CNOT { control: first, target: second })
    } else if range_is(name, 0, n, "cz") {
        Some(TwoGate::CZ { control: first, target: second })
    } else if range_is(name, 0, n, "swap") {
        Some(TwoGate::SWAP { qubit1: first, qubit2: second })
    } else {
        None
    }
}

/// Which gate the statement `text[from..to]` describes, whose first word
/// is `text[from..name_end]`.
fn parse_gate(text: &Vec<char>, name_end: usize, to: usize, name: &Vec<char>, known: usize) -> (r:
    Result<Gate, String>)
    requires
        name_end <= to <= text.len(),
    ensures
        ({
            let operands = if first_word(text@.subrange(name_end as int, to as int)).len() == 0 {
                Seq::<Seq<char>>::empty()
            } else {
                split_commas(first_word(text@.subrange(name_end as int, to as int)))
            };
            &&& r matches Ok(gate) ==> read_gate(name@, operands, known as nat) == Ok::<
                Gate,
                Seq<char>,
            >(gate)
            &&& r matches Err(e) ==> read_gate(name@, operands, known as nat) == Err::<
                Gate,
                Seq<char>,
            >(e@)
        }),
{
    let (a, b) = word_range(text, name_end, to);
    let ghost word = text@.subrange(a as int, b as int);
    let ghost operands = if word.len() == 0 {
        Seq::<Seq<char>>::empty()
    } else {
        split_commas(word)
    };
    // The bounds of the first two operands, and how many there are: 0, 1, 2
    // or, for any larger number, 3.
    let first_end = find_char(text, a, b, ',');
    let second_end = if first_end < b {
        find_char(text, first_end + 1, b, ',')
    } else {
        b
    };
    let count: usize = if a == b {
        0
    } else if first_end == b {
        1
    } else if second_end == b {
        2
    } else {
        3
    };
    proof {
        if a < b {
            if first_end < b {
                let rest = word.skip(first_end - a + 1);
                assert(text@.subrange(first_end + 1, b as int) =~= rest);
                assert(text@.subrange(a as int, first_end as int) =~= word.take(first_end - a));
                assert(operands[0] == word.take(first_end - a));
                if second_end < b {
                    lemma_split_commas_len(rest.skip(second_end - first_end));
                    assert(split_commas(rest).len() >= 2);
                    assert(operands.len() >= 3);
                } else {
                    assert(split_commas(rest) =~= seq![rest]);
                    assert(operands =~= seq![word.take(first_end - a), rest]);
                }
            } else {
                assert(operands =~= seq![word]);
            }
        }
    }
    if let Some(gate) = single_gate_for(name) {
        if count != 1 {
            let mut e = String::from_str("Single-qubit gate ");
            push_chars(&mut e, name, 0, name.len());
            e.append(" requires exactly one qubit");
            assert(name@.subrange(0, name@.len() as int) =~= name@);
            return Err(e);
        }
        match parse_operand(text, a, b, known) {
            Err(e) => Err(e),
            Ok(qubit) => Ok(Gate::Single { qubit, gate }),
        }
    } else if let Some(probe) = two_gate_for(name, 0, 0) {
        if count != 2 {
            let e = match probe {
                TwoGate::CNOT { .. } => String::from_str("CNOT gate requires exactly two qubits"),
                TwoGate::CZ { .. } => String::from_str("CZ gate requires exactly two qubits"),
                TwoGate::SWAP { .. } => String::from_str("SWAP gate requires exactly two qubits"),
            };
            return Err(e);
        }
        match parse_operand(text, a, first_end, known) {
            Err(e) => Err(e),
            Ok(first) => match parse_operand(text, first_end + 1, b, known) {
                Err(e) => Err(e),
                Ok(second) => match two_gate_for(name, first, second) {
                    Some(two) => Ok(Gate::Two(two)),
                    None => {
                        assert(false);
                        Err(String::new())
                    },
                },
            },
        }
    } else {
        let mut e = String::from_str("Unsupported gate: ");
        push_chars(&mut e, name, 0, name.len());
        assert(name@.subrange(0, name@.len() as int) =~= name@);
        Err(e)
    }
}

/// The state of reading that a circuit and the number of named qubits stand
/// for.
pub open spec fn reading_of(circuit: Circuit, known: usize) -> Reading {
    Reading { num_qubits: circuit.num_qubits, gates: circuit.gates@, known }
}

/// Reads the line `text[from..to]`, given without the white space at its
/// ends, into the circuit.
fn parse_line(circuit: &mut Circuit, known: &mut usize, text: &Vec<char>, from: usize, to: usize) -> (r:
    Result<(), String>)
    requires
        from <= to <= text.len(),
        old(circuit).wf(),
    ensures
        final(circuit).wf(),
        r is Ok ==> read_line(
            reading_of(*old(circuit), *old(known)),
            text@.subrange(from as int, to as int),
        ) == Ok::<Reading, Seq<char>>(reading_of(*final(circuit), *final(known))),
        r matches Err(e) ==> read_line(
            reading_of(*old(circuit), *old(known)),
            text@.subrange(from as int, to as int),
        ) == Err::<Reading, Seq<char>>(e@),
{
    if from == to || range_starts_with(text, from, to, "//") || range_starts_with(
        text,
        from,
        to,
        "OPENQASM",
    ) || range_starts_with(text, from, to, "include") {
        return Ok(());
    }
    if range_starts_with(text, from, to, "qreg ") {
        if let Some(n) = parse_register_size(text, from, to) {
            *circuit = Circuit::new(n);
            if n > *known {
                *known = n;
            }
        }
        return Ok(());
    }
    if text[to - 1] != ';' {
        return Ok(());
    }
    assert(text@.subrange(from as int, to - 1) =~= text@.subrange(
        from as int,
        to as int,
    ).drop_last());
    let (a, b) = word_range(text, from, to - 1);
    if a == b {
        return Ok(());
    }
    let name = lowered(text, a, b);
    match parse_gate(text, b, to - 1, &name, *known) {
        Err(e) => Err(e),
        Ok(gate) => match circuit.add_gate(gate) {
            Ok(()) => Ok(()),
            Err(inner) => {
                let mut e = String::from_str("Failed to add gate: ");
                e.append(inner.as_str());
                Err(e)
            },
        },
    }
}

/// Reads a circuit from a text in OpenQASM 2.0.
///
/// The text is read line by line. The declaration `qreg q[n];` gives the
/// number of qubits; the gates `h`, `x`, `y`, `z`, `s`, `sdg`, `cx`, `cz` and
/// `swap` follow, each on qubits written as `q[i]` or as a number alone.
/// Comments, the version and the line of a library are passed over. A text
/// without a register of at least one qubit is rejected, and so is one with
/// any other statement.
pub fn import_qasm(qasm_str: &str) -> (r: Result<Circuit, String>)
    ensures
        r is Ok <==> read_qasm(qasm_str@) is Ok,
        r matches Ok(circuit) ==> circuit.wf() && (read_qasm(qasm_str@) matches Ok(reading)
            && circuit.num_qubits == reading.num_qubits && circuit.gates@ == reading.gates),
        r matches Err(e) ==> (read_qasm(qasm_str@) matches Err(message) && message == e@),
{
    let text = chars_of(qasm_str);
    let mut circuit = Circuit::new(0);
    let mut known: usize = 0;
    let mut pos: usize = 0;
    let ghost start = Reading { num_qubits: 0, gates: Seq::empty(), known: 0 };
    assert(text@.skip(0) =~= text@);
    while pos < text.len()
        invariant
            pos <= text.len(),
            text@ == qasm_str@,
            circuit.wf(),
            start == (Reading { num_qubits: 0, gates: Seq::empty(), known: 0 }),
            read_lines(start, text@) == read_lines(
                reading_of(circuit, known),
                text@.skip(pos as int),
            ),
        decreases text.len() - pos,
    {
        let ghost rest = text@.skip(pos as int);
        let ghost before = reading_of(circuit, known);
        let end = find_char(&text, pos, text.len(), '\n');
        assert(text@.subrange(pos as int, text.len() as int) =~= rest);
        assert(text@.subrange(pos as int, end as int) =~= rest.take(end - pos));
        let (a, b) = trim_range(&text, pos, end);
        match parse_line(&mut circuit, &mut known, &text, a, b) {
            Err(e) => {
                assert(read_lines(before, rest) == Err::<Reading, Seq<char>>(e@));
                return Err(e);
            },
            Ok(()) => {},
        }
        assert(read_lines(before, rest) == read_lines(
            reading_of(circuit, known),
            after_first_line(rest),
        ));
        if end < text.len() {
            assert(text@.skip(end + 1) =~= rest.skip(end - pos + 1));
            pos = end + 1;
        } else {
            assert(text@.skip(end as int) =~= Seq::<char>::empty());
            pos = end;
        }
    }
    if circuit.num_qubits == 0 {
        Err(String::from_str("No qubit register found in QASM file"))
    } else {
        Ok(circuit)
    }
}

} // verus!
