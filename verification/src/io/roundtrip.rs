//! What reading makes of what was written: a circuit written in OpenQASM
//! and read again is the same circuit, but for its identity gates.

use crate::io::qasm::{
    after_first_line, gate_line, gate_lines, header, is_skipped, named_qubit, operand_list,
    qasm_text, qubit_index, read_gate, read_line, read_lines, read_qasm, single_gate_named,
    single_gate_word, two_gate_named, two_gate_word, Reading,
};
use crate::physics::circuit::{Gate, SingleGate, TwoGate};
use crate::text::{
    after_first_word, ascii_lower, decimal, first_word, is_space, lemma_decimal_digits,
    lemma_first_space, lemma_leading_spaces, lemma_parse_decimal, lemma_position,
    lemma_position_is_first, position, second_word, split_commas, starts_with, trim, trim_end,
    trim_start,
};
use vstd::prelude::*;

verus! {

/// A text that begins with a line is read by reading that line and then the
/// rest.
pub proof fn lemma_read_first_line(state: Reading, line: Seq<char>, rest: Seq<char>)
    requires
        forall|i: int| 0 <= i < line.len() ==> line[i] != '\n',
    ensures
        read_lines(state, line + seq!['\n'] + rest) == (match read_line(state, trim(line)) {
            Err(e) => Err(e),
            Ok(next) => read_lines(next, rest),
        }),
{
    let text = line + seq!['\n'] + rest;
    lemma_position(text, '\n', line.len());
    assert(text.take(line.len() as int) =~= line);
    assert(after_first_line(text) =~= rest);
}

/// A text of whole lines followed by more text is read by reading the lines
/// and then the rest.
pub proof fn lemma_read_lines_append(state: Reading, lines: Seq<char>, rest: Seq<char>)
    requires
        lines.len() == 0 || lines.last() == '\n',
    ensures
        read_lines(state, lines + rest) == (match read_lines(state, lines) {
            Err(e) => Err(e),
            Ok(next) => read_lines(next, rest),
        }),
    decreases lines.len(),
{
    if lines.len() == 0 {
        assert(lines + rest =~= rest);
    } else {
        let k = position(lines, '\n');
        lemma_position_is_first(lines, '\n');
        let text = lines + rest;
        lemma_position(text, '\n', k);
        assert(text.take(k as int) =~= lines.take(k as int));
        let tail = after_first_line(lines);
        assert(after_first_line(text) =~= tail + rest);
        match read_line(state, trim(lines.take(k as int))) {
            Err(e) => {},
            Ok(next) => {
                lemma_read_lines_append(next, tail, rest);
            },
        }
    }
}

/// A statement: a word, a space, the operands, and `;`.
spec fn statement(word: Seq<char>, operands: Seq<char>) -> Seq<char> {
    word + seq![' '] + operands + seq![';']
}

/// Whether `s` is one word: it is not empty and holds no white space.
spec fn is_word(s: Seq<char>) -> bool {
    s.len() > 0 && forall|i: int| 0 <= i < s.len() ==> !is_space(#[trigger] s[i])
}

/// Whether `s` is one operand: a word without a comma.
spec fn is_solid(s: Seq<char>) -> bool {
    is_word(s) && forall|i: int| 0 <= i < s.len() ==> #[trigger] s[i] != ','
}

/// Text that neither begins nor ends with white space has nothing to trim.
proof fn lemma_trim_solid(s: Seq<char>)
    requires
        s.len() > 0,
        !is_space(s[0]),
        !is_space(s.last()),
    ensures
        trim(s) == s,
{
    lemma_leading_spaces(s, 0);
    assert(trim_start(s) =~= s);
    assert(trim_end(s) =~= s);
}

/// The words of a statement are its word and its operands.
proof fn lemma_statement_words(word: Seq<char>, operands: Seq<char>)
    requires
        is_word(word),
        is_word(operands),
    ensures
        trim(statement(word, operands)) == statement(word, operands),
        statement(word, operands).last() == ';',
        statement(word, operands)[0] == word[0],
        first_word(statement(word, operands).drop_last()) == word,
        second_word(statement(word, operands).drop_last()) == operands,
{
    let line = statement(word, operands);
    assert(line[0] == word[0]);
    lemma_trim_solid(line);
    let body = line.drop_last();
    assert(body =~= word + seq![' '] + operands);
    assert(body[0] == word[0]);
    lemma_leading_spaces(body, 0);
    assert(trim_start(body) =~= body);
    assert forall|j: int| 0 <= j < word.len() implies !is_space(#[trigger] body[j]) by {
        assert(body[j] == word[j]);
    }
    assert(body[word.len() as int] == ' ');
    lemma_first_space(body, word.len());
    assert(body.take(word.len() as int) =~= word);
    let tail = after_first_word(body);
    assert(tail =~= seq![' '] + operands);
    assert(tail[1] == operands[0]);
    lemma_leading_spaces(tail, 1);
    assert(trim_start(tail) =~= operands);
    lemma_first_space(operands, operands.len());
    assert(operands.take(operands.len() as int) =~= operands);
}

/// The name of qubit `q`: `q[`, its number, `]`.
spec fn qubit_name(q: nat) -> Seq<char> {
    seq!['q', '['] + decimal(q) + seq![']']
}

/// The name of a qubit is solid, and is read as that qubit where the qubit
/// is known.
proof fn lemma_qubit_name(q: usize, known: nat)
    requires
        q < known,
    ensures
        is_solid(qubit_name(q as nat)),
        trim(qubit_name(q as nat)) == qubit_name(q as nat),
        qubit_index(qubit_name(q as nat), known) == Ok::<usize, Seq<char>>(q),
{
    let s = qubit_name(q as nat);
    let d = decimal(q as nat);
    lemma_decimal_digits(q as nat);
    assert forall|i: int| 0 <= i < s.len() implies !is_space(#[trigger] s[i]) by {
        if 2 <= i < s.len() - 1 {
            assert(s[i] == d[i - 2]);
        }
    }
    assert forall|i: int| 0 <= i < s.len() implies #[trigger] s[i] != ',' by {
        if 2 <= i < s.len() - 1 {
            assert(s[i] == d[i - 2]);
        }
    }
    lemma_trim_solid(s);
    assert(s.subrange(2, s.len() - 1) =~= d);
    assert(named_qubit(s, known) == Some(q));
}

/// Solid text without a comma is one operand.
proof fn lemma_one_operand(word: Seq<char>, a: Seq<char>)
    requires
        is_word(word),
        is_solid(a),
    ensures
        operand_list(statement(word, a).drop_last()) == seq![a],
{
    lemma_statement_words(word, a);
    lemma_position(a, ',', a.len());
    assert(split_commas(a) =~= seq![a]);
}

/// Two solid texts with a comma between them are two operands.
proof fn lemma_two_operands(word: Seq<char>, a: Seq<char>, b: Seq<char>)
    requires
        is_word(word),
        is_solid(a),
        is_solid(b),
    ensures
        is_word(a + seq![','] + b),
        operand_list(statement(word, a + seq![','] + b).drop_last()) == seq![a, b],
{
    let both = a + seq![','] + b;
    assert(both.len() > 0);
    assert forall|i: int| 0 <= i < both.len() implies !is_space(#[trigger] both[i]) by {
        if i < a.len() {
            assert(both[i] == a[i]);
        } else if i > a.len() {
            assert(both[i] == b[i - a.len() - 1]);
        }
    }
    lemma_statement_words(word, both);
    assert forall|j: int| 0 <= j < a.len() implies #[trigger] both[j] != ',' by {
        assert(both[j] == a[j]);
    }
    lemma_position(both, ',', a.len());
    assert(both.take(a.len() as int) =~= a);
    assert(both.skip(a.len() as int + 1) =~= b);
    lemma_position(b, ',', b.len());
    assert(split_commas(b) =~= seq![b]);
    assert(split_commas(both) =~= seq![a, b]);
}

/// The word of a single-qubit gate other than the identity is one word in
/// lower case, and names that gate.
proof fn lemma_single_gate_word(gate: SingleGate)
    requires
        gate != SingleGate::I,
    ensures
        is_word(single_gate_word(gate)),
        ascii_lower(single_gate_word(gate)) == single_gate_word(gate),
        single_gate_named(single_gate_word(gate)) == Some(gate),
        begins_a_gate(single_gate_word(gate)[0]),
{
    reveal_strlit("h");
    reveal_strlit("x");
    reveal_strlit("y");
    reveal_strlit("z");
    reveal_strlit("s");
    reveal_strlit("sdg");
    let w = single_gate_word(gate);
    assert(ascii_lower(w) =~= w);
    assert("h"@[0] == 'h' && "x"@[0] == 'x' && "y"@[0] == 'y' && "z"@[0] == 'z' && "s"@[0]
        == 's' && "sdg"@[0] == 's');
    assert("sdg"@.len() == 3 && "s"@.len() == 1);
}

/// The word of a two-qubit gate is one word in lower case, and names that
/// gate and no single-qubit gate.
proof fn lemma_two_gate_word(gate: TwoGate)
    ensures
        is_word(two_gate_word(gate)),
        ascii_lower(two_gate_word(gate)) == two_gate_word(gate),
        single_gate_named(two_gate_word(gate)) is None,
        two_gate_named(two_gate_word(gate), gate.operands().0, gate.operands().1) == Some(gate),
        two_gate_named(two_gate_word(gate), 0, 0) is Some,
        begins_a_gate(two_gate_word(gate)[0]),
{
    reveal_strlit("h");
    reveal_strlit("x");
    reveal_strlit("y");
    reveal_strlit("z");
    reveal_strlit("s");
    reveal_strlit("sdg");
    reveal_strlit("cx");
    reveal_strlit("cz");
    reveal_strlit("swap");
    let w = two_gate_word(gate);
    assert(ascii_lower(w) =~= w);
    assert("h"@[0] == 'h' && "x"@[0] == 'x' && "y"@[0] == 'y' && "z"@[0] == 'z' && "s"@[0]
        == 's' && "sdg"@[0] == 's');
    assert("cx"@[0] == 'c' && "cz"@[0] == 'c' && "swap"@[0] == 's');
    assert("cx"@[1] == 'x' && "cz"@[1] == 'z');
    assert("swap"@.len() == 4 && "sdg"@.len() == 3 && "s"@.len() == 1);
}

/// Whether `c` is the first letter of a word of a gate. No comment, no
/// version line, no library line and no declaration begins with it.
spec fn begins_a_gate(c: char) -> bool {
    c == 'h' || c == 'x' || c == 'y' || c == 'z' || c == 's' || c == 'c'
}

/// A line that begins with the first letter of a gate is read as a
/// statement.
proof fn lemma_not_passed_over(line: Seq<char>)
    requires
        line.len() > 0,
        begins_a_gate(line[0]),
    ensures
        !is_skipped(line),
        !starts_with(line, "qreg "@),
{
    reveal_strlit("//");
    reveal_strlit("OPENQASM");
    reveal_strlit("include");
    reveal_strlit("qreg ");
    assert(starts_with(line, "//"@) ==> line.take(2)[0] == "//"@[0]);
    assert(starts_with(line, "OPENQASM"@) ==> line.take(8)[0] == "OPENQASM"@[0]);
    assert(starts_with(line, "include"@) ==> line.take(7)[0] == "include"@[0]);
    assert(starts_with(line, "qreg "@) ==> line.take(5)[0] == "qreg "@[0]);
}

/// The gates that are written: all but the identity gates.
pub open spec fn written(gates: Seq<Gate>) -> Seq<Gate>
    decreases gates.len(),
{
    if gates.len() == 0 {
        Seq::empty()
    } else if is_identity(gates.last()) {
        written(gates.drop_last())
    } else {
        written(gates.drop_last()).push(gates.last())
    }
}

/// The statement that is written for a gate other than the identity.
spec fn gate_statement(gate: Gate) -> Seq<char> {
    match gate {
        Gate::Single { qubit, gate } => statement(single_gate_word(gate), qubit_name(qubit as nat)),
        Gate::Two(two) => statement(
            two_gate_word(two),
            qubit_name(two.operands().0 as nat) + seq![','] + qubit_name(two.operands().1 as nat),
        ),
    }
}

/// Whether a gate is an identity gate.
pub open spec fn is_identity(gate: Gate) -> bool {
    gate matches Gate::Single { gate: SingleGate::I, .. }
}

/// The line of a gate is its statement and a line end; the identity gate
/// has no line.
proof fn lemma_gate_line_text(gate: Gate)
    ensures
        is_identity(gate) ==> gate_line(gate) == Seq::<char>::empty(),
        !is_identity(gate) ==> gate_line(gate) == gate_statement(gate) + seq!['\n'],
{
    reveal_strlit(" q[");
    reveal_strlit("];\n");
    reveal_strlit("],q[");
    if !is_identity(gate) {
        assert(gate_line(gate) =~= gate_statement(gate) + seq!['\n']);
    }
}

/// The statement of a single-qubit gate, read where its qubit is known and
/// in range, adds that gate.
proof fn lemma_read_single_statement(state: Reading, qubit: usize, single: SingleGate)
    requires
        single != SingleGate::I,
        qubit < state.num_qubits,
        state.num_qubits <= state.known,
    ensures
        read_line(state, trim(gate_statement(Gate::Single { qubit, gate: single }))) == Ok::<
            Reading,
            Seq<char>,
        >(Reading { gates: state.gates.push(Gate::Single { qubit, gate: single }), ..state }),
{
    let gate = Gate::Single { qubit, gate: single };
    let known = state.known as nat;
    let word = single_gate_word(single);
    let name = qubit_name(qubit as nat);
    let line = statement(word, name);
    lemma_single_gate_word(single);
    lemma_qubit_name(qubit, known);
    lemma_statement_words(word, name);
    lemma_one_operand(word, name);
    lemma_not_passed_over(line);
    assert(read_gate(word, seq![name], known) == Ok::<Gate, Seq<char>>(gate));
    assert(gate.touched() =~= seq![qubit]);
    assert(gate.in_range(state.num_qubits as nat));
}

/// The statement of a two-qubit gate, read where its qubits are known and in
/// range, adds that gate.
proof fn lemma_read_two_statement(state: Reading, two: TwoGate)
    requires
        two.operands().0 < state.num_qubits,
        two.operands().1 < state.num_qubits,
        state.num_qubits <= state.known,
    ensures
        read_line(state, trim(gate_statement(Gate::Two(two)))) == Ok::<Reading, Seq<char>>(
            Reading { gates: state.gates.push(Gate::Two(two)), ..state },
        ),
{
    let gate = Gate::Two(two);
    let known = state.known as nat;
    let word = two_gate_word(two);
    let first = qubit_name(two.operands().0 as nat);
    let second = qubit_name(two.operands().1 as nat);
    let operands = first + seq![','] + second;
    let line = statement(word, operands);
    lemma_two_gate_word(two);
    lemma_qubit_name(two.operands().0, known);
    lemma_qubit_name(two.operands().1, known);
    lemma_two_operands(word, first, second);
    lemma_statement_words(word, operands);
    lemma_not_passed_over(line);
    assert(read_gate(word, seq![first, second], known) == Ok::<Gate, Seq<char>>(gate));
    assert(gate.touched() =~= seq![two.operands().0, two.operands().1]);
    assert(gate.in_range(state.num_qubits as nat));
}

/// The statement of a gate holds no line end.
proof fn lemma_gate_statement_one_line(gate: Gate)
    requires
        !is_identity(gate),
    ensures
        forall|i: int| 0 <= i < gate_statement(gate).len() ==> gate_statement(gate)[i] != '\n',
{
    match gate {
        Gate::Single { qubit, gate: single } => {
            let word = single_gate_word(single);
            let name = qubit_name(qubit as nat);
            lemma_single_gate_word(single);
            lemma_qubit_name(qubit, (qubit + 1) as nat);
            assert forall|i: int| 0 <= i < statement(word, name).len() implies statement(
                word,
                name,
            )[i] != '\n' by {
                lemma_no_newline(word, name, i);
            }
        },
        Gate::Two(two) => {
            let word = two_gate_word(two);
            let first = qubit_name(two.operands().0 as nat);
            let second = qubit_name(two.operands().1 as nat);
            let operands = first + seq![','] + second;
            lemma_two_gate_word(two);
            lemma_qubit_name(two.operands().0, (two.operands().0 + 1) as nat);
            lemma_qubit_name(two.operands().1, (two.operands().1 + 1) as nat);
            lemma_two_operands(word, first, second);
            assert forall|i: int| 0 <= i < statement(word, operands).len() implies statement(
                word,
                operands,
            )[i] != '\n' by {
                lemma_no_newline(word, operands, i);
            }
        },
    }
}

/// The line of a gate, read where its qubits are known and in range, adds
/// that gate, and more text behind it is read after it.
proof fn lemma_read_gate_line(state: Reading, gate: Gate, rest: Seq<char>)
    requires
        !is_identity(gate),
        gate.in_range(state.num_qubits as nat),
        state.num_qubits <= state.known,
    ensures
        read_lines(state, gate_line(gate) + rest) == read_lines(
            Reading { gates: state.gates.push(gate), ..state },
            rest,
        ),
{
    lemma_gate_line_text(gate);
    lemma_gate_statement_one_line(gate);
    lemma_read_first_line(state, gate_statement(gate), rest);
    match gate {
        Gate::Single { qubit, gate: single } => {
            assert(gate.touched()[0] == qubit);
            lemma_read_single_statement(state, qubit, single);
        },
        Gate::Two(two) => {
            assert(gate.touched()[0] == two.operands().0);
            assert(gate.touched()[1] == two.operands().1);
            lemma_read_two_statement(state, two);
        },
    }
}

/// A statement of words holds no line end.
proof fn lemma_no_newline(word: Seq<char>, operands: Seq<char>, i: int)
    requires
        is_word(word),
        is_word(operands),
        0 <= i < statement(word, operands).len(),
    ensures
        statement(word, operands)[i] != '\n',
{
    let line = statement(word, operands);
    if i < word.len() {
        assert(line[i] == word[i]);
    } else if word.len() < i < line.len() - 1 {
        assert(line[i] == operands[i - word.len() - 1]);
    }
}

/// The lines of gates are whole lines.
proof fn lemma_gate_lines_end(gates: Seq<Gate>)
    ensures
        gate_lines(gates).len() == 0 || gate_lines(gates).last() == '\n',
    decreases gates.len(),
{
    if gates.len() > 0 {
        lemma_gate_lines_end(gates.drop_last());
        lemma_gate_line_text(gates.last());
    }
}

/// The lines of gates, read where their qubits are known and in range, add
/// the gates that are written, in their order.
pub proof fn lemma_read_gate_lines(state: Reading, gates: Seq<Gate>)
    requires
        forall|i: int| 0 <= i < gates.len() ==> (#[trigger] gates[i]).in_range(
            state.num_qubits as nat,
        ),
        state.num_qubits <= state.known,
    ensures
        read_lines(state, gate_lines(gates)) == Ok::<Reading, Seq<char>>(
            Reading { gates: state.gates + written(gates), ..state },
        ),
    decreases gates.len(),
{
    if gates.len() == 0 {
        assert(state.gates + written(gates) =~= state.gates);
    } else {
        let init = gates.drop_last();
        let last = gates.last();
        let mid = Reading { gates: state.gates + written(init), ..state };
        assert forall|i: int| 0 <= i < init.len() implies (#[trigger] init[i]).in_range(
            state.num_qubits as nat,
        ) by {
            assert(init[i] == gates[i]);
        }
        lemma_read_gate_lines(state, init);
        lemma_gate_lines_end(init);
        lemma_read_lines_append(state, gate_lines(init), gate_line(last));
        lemma_gate_line_text(last);
        if is_identity(last) {
            assert(gate_lines(gates) =~= gate_lines(init));
        } else {
            assert(last.in_range(state.num_qubits as nat));
            lemma_read_gate_line(mid, last, Seq::<char>::empty());
            assert(gate_line(last) + Seq::<char>::empty() =~= gate_line(last));
            assert(mid.gates.push(last) =~= state.gates + written(gates));
        }
    }
}

/// The head of a text in OpenQASM declares the qubits and no gate.
proof fn lemma_read_header(num_qubits: usize, rest: Seq<char>)
    ensures
        read_lines(
            Reading { num_qubits: 0, gates: Seq::empty(), known: 0 },
            header(num_qubits as nat) + rest,
        ) == read_lines(Reading { num_qubits, gates: Seq::empty(), known: num_qubits }, rest),
{
    let start = Reading { num_qubits: 0, gates: Seq::empty(), known: 0 };
    let version = "OPENQASM 2.0;"@;
    let library = "include \"qelib1.inc\";"@;
    let register = declaration(num_qubits as nat);
    let blank = Seq::<char>::empty();
    let after_blank = rest;
    let after_register = blank + seq!['\n'] + after_blank;
    let after_library = register + seq!['\n'] + after_register;
    let after_version = library + seq!['\n'] + after_library;
    lemma_header_text(num_qubits as nat);
    assert(header(num_qubits as nat) + rest =~= version + seq!['\n'] + after_version);
    lemma_passed_over_lines();
    lemma_declaration_one_line(num_qubits as nat);
    lemma_read_first_line(start, version, after_version);
    lemma_read_first_line(start, library, after_library);
    lemma_read_declaration(start, num_qubits);
    lemma_read_first_line(start, register, after_register);
    let declared = Reading { num_qubits, gates: Seq::empty(), known: num_qubits };
    lemma_read_first_line(declared, blank, after_blank);
    lemma_leading_spaces(blank, 0);
    assert(trim(blank) =~= blank);
}

/// The declaration of a register `q` of the given size.
spec fn declaration(num_qubits: nat) -> Seq<char> {
    seq!['q', 'r', 'e', 'g', ' '] + qubit_name(num_qubits) + seq![';']
}

/// The head is the version, the library, the declaration and an empty line.
proof fn lemma_header_text(num_qubits: nat)
    ensures
        header(num_qubits) == "OPENQASM 2.0;"@ + seq!['\n'] + ("include \"qelib1.inc\";"@
            + seq!['\n'] + (declaration(num_qubits) + seq!['\n'] + (Seq::<char>::empty()
            + seq!['\n']))),
{
    reveal_strlit("OPENQASM 2.0;\n");
    reveal_strlit("OPENQASM 2.0;");
    reveal_strlit("include \"qelib1.inc\";\n");
    reveal_strlit("include \"qelib1.inc\";");
    reveal_strlit("qreg q[");
    reveal_strlit("];\n");
    reveal_strlit("\n");
    assert(header(num_qubits) =~= "OPENQASM 2.0;"@ + seq!['\n'] + ("include \"qelib1.inc\";"@
        + seq!['\n'] + (declaration(num_qubits) + seq!['\n'] + (Seq::<char>::empty()
        + seq!['\n']))));
}

/// The version and the library are lines of their own, and are passed over.
proof fn lemma_passed_over_lines()
    ensures
        forall|i: int| 0 <= i < "OPENQASM 2.0;"@.len() ==> "OPENQASM 2.0;"@[i] != '\n',
        forall|i: int|
            0 <= i < "include \"qelib1.inc\";"@.len() ==> "include \"qelib1.inc\";"@[i] != '\n',
        is_skipped(trim("OPENQASM 2.0;"@)),
        is_skipped(trim("include \"qelib1.inc\";"@)),
{
    reveal_strlit("OPENQASM 2.0;");
    reveal_strlit("include \"qelib1.inc\";");
    reveal_strlit("OPENQASM");
    reveal_strlit("include");
    let version = "OPENQASM 2.0;"@;
    let library = "include \"qelib1.inc\";"@;
    lemma_trim_solid(version);
    lemma_trim_solid(library);
    assert(version.take(8) =~= "OPENQASM"@);
    assert(library.take(7) =~= "include"@);
}

/// The declaration holds no line end.
proof fn lemma_declaration_one_line(num_qubits: nat)
    ensures
        forall|i: int|
            0 <= i < declaration(num_qubits).len() ==> declaration(num_qubits)[i] != '\n',
{
    let name = qubit_name(num_qubits);
    let line = declaration(num_qubits);
    lemma_decimal_digits(num_qubits);
    assert forall|i: int| 0 <= i < line.len() implies line[i] != '\n' by {
        if 7 <= i < line.len() - 2 {
            assert(line[i] == decimal(num_qubits)[i - 7]);
        }
    }
}

/// The declaration of a register sets the number of qubits and gives them
/// their names.
proof fn lemma_read_declaration(state: Reading, num_qubits: usize)
    requires
        state.known <= num_qubits,
    ensures
        read_line(state, trim(declaration(num_qubits as nat))) == Ok::<Reading, Seq<char>>(
            Reading { num_qubits, gates: Seq::empty(), known: num_qubits },
        ),
{
    reveal_strlit("//");
    reveal_strlit("OPENQASM");
    reveal_strlit("include");
    reveal_strlit("qreg ");
    let n = num_qubits as nat;
    let line = declaration(n);
    let word = seq!['q', 'r', 'e', 'g'];
    let d = decimal(n);
    let part = qubit_name(n) + seq![';'];
    lemma_decimal_digits(n);
    lemma_parse_decimal(num_qubits);
    lemma_trim_solid(line);
    assert(starts_with(line, "//"@) ==> line.take(2)[0] == "//"@[0]);
    assert(starts_with(line, "OPENQASM"@) ==> line.take(8)[0] == "OPENQASM"@[0]);
    assert(starts_with(line, "include"@) ==> line.take(7)[0] == "include"@[0]);
    assert(line.take(5) =~= "qreg "@);
    assert forall|i: int| 0 <= i < part.len() implies !is_space(#[trigger] part[i]) by {
        if 2 <= i < part.len() - 2 {
            assert(part[i] == d[i - 2]);
        }
    }
    lemma_statement_words(word, part);
    assert(statement(word, part).drop_last() =~= line);
    assert(second_word(line) == part);
    lemma_position(part, '[', 1);
    assert forall|j: int| 0 <= j < 2 + d.len() implies #[trigger] part[j] != ']' by {
        if 2 <= j {
            assert(part[j] == d[j - 2]);
        }
    }
    lemma_position(part, ']', 2 + d.len());
    assert(part.subrange(2, 2 + d.len() as int) =~= d);
}

/// A circuit written in OpenQASM and read again is the circuit that was
/// written, without its identity gates, which are not written. A circuit
/// without a qubit is written, but not read: the text declares no qubit.
pub proof fn lemma_import_of_export(num_qubits: usize, gates: Seq<Gate>)
    requires
        forall|i: int| 0 <= i < gates.len() ==> (#[trigger] gates[i]).in_range(num_qubits as nat),
    ensures
        num_qubits > 0 ==> read_qasm(qasm_text(num_qubits as nat, gates)) == Ok::<
            Reading,
            Seq<char>,
        >(Reading { num_qubits, gates: written(gates), known: num_qubits }),
        num_qubits == 0 ==> read_qasm(qasm_text(num_qubits as nat, gates)) == Err::<
            Reading,
            Seq<char>,
        >(crate::io::qasm::no_register_error()),
{
    let declared = Reading { num_qubits, gates: Seq::empty(), known: num_qubits };
    lemma_read_header(num_qubits, gate_lines(gates));
    lemma_read_gate_lines(declared, gates);
    assert(declared.gates + written(gates) =~= written(gates));
}

} // verus!
