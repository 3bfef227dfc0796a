//! Identities of the Pauli group and of the Clifford gates, and what stepping
//! back undoes: proved of the definitions that the contracts are stated in.

use crate::bits::count_true;
use crate::physics::circuit::{Gate, SingleGate, TwoGate};
use crate::physics::pauli::{both, differ, PauliModel, Phase, SinglePauli};
use crate::physics::propagation::{
    conjugate, conjugate_single, conjugate_two, lemma_conjugate_keeps_qubits,
};
use crate::physics::simulator::SimulatorModel;
use vstd::prelude::*;

verus! {

/// The multiplication table of the single-qubit Pauli operators: the
/// operator and the phase of `a * b`. The identity changes nothing, each
/// operator squares to the identity, and `X * Z` is `Y` with phase +i; the
/// other products follow, with the opposite phase for the opposite order.
pub open spec fn single_product(a: SinglePauli, b: SinglePauli) -> (SinglePauli, Phase) {
    match (a, b) {
        (SinglePauli::I, _) => (b, Phase::PlusOne),
        (_, SinglePauli::I) => (a, Phase::PlusOne),
        (SinglePauli::X, SinglePauli::X) => (SinglePauli::I, Phase::PlusOne),
        (SinglePauli::Y, SinglePauli::Y) => (SinglePauli::I, Phase::PlusOne),
        (SinglePauli::Z, SinglePauli::Z) => (SinglePauli::I, Phase::PlusOne),
        (SinglePauli::X, SinglePauli::Z) => (SinglePauli::Y, Phase::PlusI),
        (SinglePauli::Z, SinglePauli::X) => (SinglePauli::Y, Phase::MinusI),
        (SinglePauli::X, SinglePauli::Y) => (SinglePauli::Z, Phase::PlusI),
        (SinglePauli::Y, SinglePauli::X) => (SinglePauli::Z, Phase::MinusI),
        (SinglePauli::Y, SinglePauli::Z) => (SinglePauli::X, Phase::PlusI),
        (SinglePauli::Z, SinglePauli::Y) => (SinglePauli::X, Phase::MinusI),
    }
}

/// Whether two single-qubit Pauli operators commute: one of them is the
/// identity, or they are the same.
pub open spec fn single_commutes(a: SinglePauli, b: SinglePauli) -> bool {
    a == SinglePauli::I || b == SinglePauli::I || a == b
}

/// A sequence of one entry counts one if the entry is true, else zero.
proof fn lemma_count_one(s: Seq<bool>)
    requires
        s.len() == 1,
    ensures
        count_true(s) == (if s[0] { 1nat } else { 0nat }),
{
    assert(count_true(s.drop_last()) == 0);
}

/// A sequence without a true entry counts zero.
proof fn lemma_count_none(s: Seq<bool>)
    requires
        forall|i: int| 0 <= i < s.len() ==> !s[i],
    ensures
        count_true(s) == 0,
    decreases s.len(),
{
    if s.len() > 0 {
        lemma_count_none(s.drop_last());
    }
}

/// On every qubit the product of two operators holds the product of their
/// components, as the multiplication table gives it.
pub proof fn lemma_product_components(p: PauliModel, q: PauliModel, i: int)
    requires
        p.wf(),
        q.wf(),
        p.num_qubits() == q.num_qubits(),
        0 <= i < p.num_qubits(),
    ensures
        p.times(q).wf(),
        p.times(q).num_qubits() == p.num_qubits(),
        p.times(q).pauli_at(i) == single_product(p.pauli_at(i), q.pauli_at(i)).0,
{
}

/// The product of two single-qubit operators is again one, and follows the
/// multiplication table: it holds the product of the two components, and its
/// phase is the product of the two phases and of the phase in the table.
pub proof fn lemma_single_qubit_product(p: PauliModel, q: PauliModel)
    requires
        p.wf(),
        q.wf(),
        p.num_qubits() == 1,
        q.num_qubits() == 1,
    ensures
        p.times(q).wf(),
        p.times(q).num_qubits() == 1,
        p.times(q).pauli_at(0) == single_product(p.pauli_at(0), q.pauli_at(0)).0,
        p.times(q).phase == p.phase.times(q.phase).times(
            single_product(p.pauli_at(0), q.pauli_at(0)).1,
        ),
{
    lemma_count_one(both(p.xs, q.zs));
    lemma_count_one(both(p.zs, q.xs));
}

/// The sum of the exponents of the phases that the multiplication table
/// gives for the first `k` qubits of `p * q`.
pub open spec fn table_exponents(p: PauliModel, q: PauliModel, k: nat) -> int
    decreases k,
{
    if k == 0 {
        0
    } else {
        table_exponents(p, q, (k - 1) as nat) + single_product(
            p.pauli_at(k - 1),
            q.pauli_at(k - 1),
        ).1.exponent()
    }
}

/// Over the first `k` qubits, the symplectic exponent and the sum of the
/// exponents in the table differ by a multiple of 4.
proof fn lemma_exponents_agree(p: PauliModel, q: PauliModel, k: nat)
    requires
        p.wf(),
        q.wf(),
        p.num_qubits() == q.num_qubits(),
        k <= p.num_qubits(),
    ensures
        (count_true(both(p.xs, q.zs).take(k as int)) - count_true(
            both(p.zs, q.xs).take(k as int),
        ) - table_exponents(p, q, k)) % 4 == 0,
    decreases k,
{
    if k > 0 {
        let plus = both(p.xs, q.zs);
        let minus = both(p.zs, q.xs);
        lemma_exponents_agree(p, q, (k - 1) as nat);
        assert(plus.take(k as int).drop_last() =~= plus.take(k - 1));
        assert(minus.take(k as int).drop_last() =~= minus.take(k - 1));
    }
}

/// The phase of a product of two operators is the product of their phases
/// and of the phases that the multiplication table gives qubit by qubit.
pub proof fn lemma_product_phase(p: PauliModel, q: PauliModel)
    requires
        p.wf(),
        q.wf(),
        p.num_qubits() == q.num_qubits(),
    ensures
        p.times(q).phase == p.phase.times(q.phase).times(
            Phase::power_of_i(table_exponents(p, q, p.num_qubits())),
        ),
{
    let n = p.num_qubits();
    lemma_exponents_agree(p, q, n);
    assert(both(p.xs, q.zs).take(n as int) =~= both(p.xs, q.zs));
    assert(both(p.zs, q.xs).take(n as int) =~= both(p.zs, q.xs));
}

/// The identity with phase +1 is neutral: a product with it, on either side,
/// is the other operator.
pub proof fn lemma_identity_is_neutral(p: PauliModel)
    requires
        p.wf(),
    ensures
        p.times(PauliModel::identity(p.num_qubits())) == p,
        PauliModel::identity(p.num_qubits()).times(p) == p,
{
    let id = PauliModel::identity(p.num_qubits());
    lemma_count_none(both(p.xs, id.zs));
    lemma_count_none(both(p.zs, id.xs));
    lemma_count_none(both(id.xs, p.zs));
    lemma_count_none(both(id.zs, p.xs));
    assert(p.times(id).xs =~= p.xs);
    assert(p.times(id).zs =~= p.zs);
    assert(id.times(p).xs =~= p.xs);
    assert(id.times(p).zs =~= p.zs);
}

/// Whether two operators commute does not depend on their order.
pub proof fn lemma_commutes_symmetric(p: PauliModel, q: PauliModel)
    requires
        p.wf(),
        q.wf(),
    ensures
        p.commutes(q) == q.commutes(p),
{
    if p.num_qubits() == q.num_qubits() {
        assert(differ(both(p.xs, q.zs), both(p.zs, q.xs)) =~= differ(
            both(q.xs, p.zs),
            both(q.zs, p.xs),
        ));
    }
}

/// Where two sequences differ is, up to an even number, where either is
/// true.
proof fn lemma_count_differ_parity(a: Seq<bool>, b: Seq<bool>)
    requires
        a.len() == b.len(),
    ensures
        count_true(differ(a, b)) % 2 == (count_true(a) + count_true(b)) % 2,
    decreases a.len(),
{
    if a.len() > 0 {
        lemma_count_differ_parity(a.drop_last(), b.drop_last());
        assert(differ(a, b).drop_last() =~= differ(a.drop_last(), b.drop_last()));
    }
}

/// Two operators on as many qubits commute exactly if their products in the
/// two orders are the same operator. If they do not commute, the two
/// products differ by the sign.
pub proof fn lemma_commutes_means_products_agree(p: PauliModel, q: PauliModel)
    requires
        p.wf(),
        q.wf(),
        p.num_qubits() == q.num_qubits(),
    ensures
        p.commutes(q) <==> p.times(q) == q.times(p),
        !p.commutes(q) <==> p.times(q) == q.times(p).with_phase(
            q.times(p).phase.times(Phase::MinusOne),
        ),
{
    let plus = both(p.xs, q.zs);
    let minus = both(p.zs, q.xs);
    lemma_count_differ_parity(plus, minus);
    assert(both(q.xs, p.zs) =~= minus);
    assert(both(q.zs, p.xs) =~= plus);
    assert(p.times(q).xs =~= q.times(p).xs);
    assert(p.times(q).zs =~= q.times(p).zs);
}

/// The identity commutes with every operator on as many qubits, and every
/// such operator with the identity.
pub proof fn lemma_identity_commutes(q: PauliModel, phase: Phase)
    requires
        q.wf(),
    ensures
        PauliModel::identity(q.num_qubits()).with_phase(phase).commutes(q),
        q.commutes(PauliModel::identity(q.num_qubits()).with_phase(phase)),
{
    let id = PauliModel::identity(q.num_qubits()).with_phase(phase);
    lemma_count_none(differ(both(id.xs, q.zs), both(id.zs, q.xs)));
    lemma_count_none(differ(both(q.xs, id.zs), both(q.zs, id.xs)));
}

/// Two single-qubit operators commute exactly if their components do: X and
/// Z anticommute, and so do X and Y, and Y and Z; an operator commutes with
/// itself and with the identity. The phases play no part.
pub proof fn lemma_single_qubit_commutes(p: PauliModel, q: PauliModel)
    requires
        p.wf(),
        q.wf(),
        p.num_qubits() == 1,
        q.num_qubits() == 1,
    ensures
        p.commutes(q) == single_commutes(p.pauli_at(0), q.pauli_at(0)),
{
    lemma_count_one(differ(both(p.xs, q.zs), both(p.zs, q.xs)));
}

/// Qubit by qubit, whether the components of two operators anticommute.
pub open spec fn anticommuting(p: PauliModel, q: PauliModel) -> Seq<bool> {
    differ(both(p.xs, q.zs), both(p.zs, q.xs))
}

/// Replacing one entry changes the count by what the entry gains or loses.
proof fn lemma_count_update(s: Seq<bool>, i: int, b: bool)
    requires
        0 <= i < s.len(),
    ensures
        count_true(s.update(i, b)) == count_true(s) - (if s[i] { 1int } else { 0int }) + (if b {
            1int
        } else {
            0int
        }),
    decreases s.len(),
{
    if i == s.len() - 1 {
        assert(s.update(i, b).drop_last() =~= s.drop_last());
    } else {
        assert(s.update(i, b).drop_last() =~= s.drop_last().update(i, b));
        lemma_count_update(s.drop_last(), i, b);
    }
}

/// A single-qubit gate keeps, on every qubit, whether two operators
/// anticommute there.
proof fn lemma_single_gate_keeps_anticommuting(
    p: PauliModel,
    q: PauliModel,
    qubit: int,
    gate: SingleGate,
)
    requires
        p.wf(),
        q.wf(),
        p.num_qubits() == q.num_qubits(),
        0 <= qubit < p.num_qubits(),
    ensures
        anticommuting(conjugate_single(p, qubit, gate), conjugate_single(q, qubit, gate))
            == anticommuting(p, q),
{
    assert(anticommuting(conjugate_single(p, qubit, gate), conjugate_single(q, qubit, gate))
        =~= anticommuting(p, q));
}

/// Two sequences that differ on two entries at most, and there by as much
/// on the one as on the other, count the same up to an even number.
proof fn lemma_two_entries_changed(before: Seq<bool>, after: Seq<bool>, a: int, b: int)
    requires
        before.len() == after.len(),
        0 <= a < before.len(),
        0 <= b < before.len(),
        a != b,
        forall|i: int| 0 <= i < before.len() && i != a && i != b ==> after[i] == before[i],
        (before[a] != before[b]) == (after[a] != after[b]),
    ensures
        count_true(after) % 2 == count_true(before) % 2,
{
    let half = before.update(a, after[a]);
    assert(after =~= half.update(b, after[b]));
    lemma_count_update(before, a, after[a]);
    lemma_count_update(half, b, after[b]);
}

/// CNOT keeps the parity of the number of qubits on which two operators
/// anticommute.
proof fn lemma_cnot_keeps_parity(p: PauliModel, q: PauliModel, control: usize, target: usize)
    requires
        p.wf(),
        q.wf(),
        p.num_qubits() == q.num_qubits(),
        control < p.num_qubits(),
        target < p.num_qubits(),
        control != target,
    ensures
        count_true(
            anticommuting(
                conjugate_two(p, TwoGate::CNOT { control, target }),
                conjugate_two(q, TwoGate::CNOT { control, target }),
            ),
        ) % 2 == count_true(anticommuting(p, q)) % 2,
{
    let gate = TwoGate::CNOT { control, target };
    let c = control as int;
    let t = target as int;
    let pc = conjugate_two(p, gate);
    let qc = conjugate_two(q, gate);
    let before = anticommuting(p, q);
    let after = anticommuting(pc, qc);
    assert(pc.xs[t] == (p.xs[t] != p.xs[c]) && pc.zs[c] == (p.zs[c] != p.zs[t]));
    assert(qc.xs[t] == (q.xs[t] != q.xs[c]) && qc.zs[c] == (q.zs[c] != q.zs[t]));
    assert forall|i: int| 0 <= i < before.len() && i != c && i != t implies after[i]
        == before[i] by {
        assert(pc.zs[i] == p.zs[i] && qc.zs[i] == q.zs[i]);
        assert(pc.xs[i] == p.xs[i] && qc.xs[i] == q.xs[i]);
    }
    assert(after[c] == ((p.xs[c] && qc.zs[c]) != (pc.zs[c] && q.xs[c])));
    assert(after[t] == ((pc.xs[t] && q.zs[t]) != (p.zs[t] && qc.xs[t])));
    lemma_two_entries_changed(before, after, c, t);
}

/// CZ keeps the parity of the number of qubits on which two operators
/// anticommute.
proof fn lemma_cz_keeps_parity(p: PauliModel, q: PauliModel, control: usize, target: usize)
    requires
        p.wf(),
        q.wf(),
        p.num_qubits() == q.num_qubits(),
        control < p.num_qubits(),
        target < p.num_qubits(),
        control != target,
    ensures
        count_true(
            anticommuting(
                conjugate_two(p, TwoGate::CZ { control, target }),
                conjugate_two(q, TwoGate::CZ { control, target }),
            ),
        ) % 2 == count_true(anticommuting(p, q)) % 2,
{
    let gate = TwoGate::CZ { control, target };
    let c = control as int;
    let t = target as int;
    let pc = conjugate_two(p, gate);
    let qc = conjugate_two(q, gate);
    let before = anticommuting(p, q);
    let after = anticommuting(pc, qc);
    assert(pc.zs[c] == (p.zs[c] != p.xs[t]) && pc.zs[t] == (p.zs[t] != p.xs[c]));
    assert(qc.zs[c] == (q.zs[c] != q.xs[t]) && qc.zs[t] == (q.zs[t] != q.xs[c]));
    assert forall|i: int| 0 <= i < before.len() && i != c && i != t implies after[i]
        == before[i] by {
        assert(pc.zs[i] == p.zs[i] && qc.zs[i] == q.zs[i]);
    }
    assert(after[c] == ((p.xs[c] && qc.zs[c]) != (pc.zs[c] && q.xs[c])));
    assert(after[t] == ((p.xs[t] && qc.zs[t]) != (pc.zs[t] && q.xs[t])));
    lemma_two_entries_changed(before, after, c, t);
}

/// SWAP keeps the parity of the number of qubits on which two operators
/// anticommute.
proof fn lemma_swap_keeps_parity(p: PauliModel, q: PauliModel, qubit1: usize, qubit2: usize)
    requires
        p.wf(),
        q.wf(),
        p.num_qubits() == q.num_qubits(),
        qubit1 < p.num_qubits(),
        qubit2 < p.num_qubits(),
    ensures
        count_true(
            anticommuting(
                conjugate_two(p, TwoGate::SWAP { qubit1, qubit2 }),
                conjugate_two(q, TwoGate::SWAP { qubit1, qubit2 }),
            ),
        ) % 2 == count_true(anticommuting(p, q)) % 2,
{
    let gate = TwoGate::SWAP { qubit1, qubit2 };
    let a = qubit1 as int;
    let b = qubit2 as int;
    let pc = conjugate_two(p, gate);
    let qc = conjugate_two(q, gate);
    let before = anticommuting(p, q);
    let after = anticommuting(pc, qc);
    if a == b {
        assert(pc.xs =~= p.xs && pc.zs =~= p.zs);
        assert(qc.xs =~= q.xs && qc.zs =~= q.zs);
    } else {
        assert(pc.xs[a] == p.xs[b] && pc.xs[b] == p.xs[a]);
        assert(pc.zs[a] == p.zs[b] && pc.zs[b] == p.zs[a]);
        assert(qc.xs[a] == q.xs[b] && qc.xs[b] == q.xs[a]);
        assert(qc.zs[a] == q.zs[b] && qc.zs[b] == q.zs[a]);
        assert forall|i: int| 0 <= i < before.len() && i != a && i != b implies after[i]
            == before[i] by {
            assert(pc.zs[i] == p.zs[i] && qc.zs[i] == q.zs[i]);
            assert(pc.xs[i] == p.xs[i] && qc.xs[i] == q.xs[i]);
        }
        assert(after[a] == before[b]);
        assert(after[b] == before[a]);
        lemma_two_entries_changed(before, after, a, b);
    }
}

/// Conjugation keeps commutation: two operators commute after a gate has
/// acted on both exactly if they did before.
pub proof fn lemma_conjugation_keeps_commutation(p: PauliModel, q: PauliModel, gate: Gate)
    requires
        p.wf(),
        q.wf(),
        p.num_qubits() == q.num_qubits(),
        gate.applies_to(p.num_qubits()),
    ensures
        conjugate(p, gate).commutes(conjugate(q, gate)) == p.commutes(q),
{
    lemma_conjugate_keeps_qubits(p, gate);
    lemma_conjugate_keeps_qubits(q, gate);
    match gate {
        Gate::Single { qubit, gate } => {
            lemma_single_gate_keeps_anticommuting(p, q, qubit as int, gate);
        },
        Gate::Two(TwoGate::CNOT { control, target }) => {
            lemma_cnot_keeps_parity(p, q, control, target);
        },
        Gate::Two(TwoGate::CZ { control, target }) => {
            lemma_cz_keeps_parity(p, q, control, target);
        },
        Gate::Two(TwoGate::SWAP { qubit1, qubit2 }) => {
            lemma_swap_keeps_parity(p, q, qubit1, qubit2);
        },
    }
}

/// H is its own inverse: applied twice to a qubit, it gives the operator
/// back, components and phase.
pub proof fn lemma_h_twice(p: PauliModel, qubit: int)
    requires
        p.wf(),
        0 <= qubit < p.num_qubits(),
    ensures
        conjugate_single(conjugate_single(p, qubit, SingleGate::H), qubit, SingleGate::H) == p,
{
    let once = conjugate_single(p, qubit, SingleGate::H);
    let twice = conjugate_single(once, qubit, SingleGate::H);
    assert(twice.xs =~= p.xs);
    assert(twice.zs =~= p.zs);
}

/// S and then S† on a qubit give the components back. They give the phase
/// back too where the qubit holds I or Z, where it holds X and the phase is
/// +1, and where it holds Y and the phase is -i.
pub proof fn lemma_s_then_sdg(p: PauliModel, qubit: int)
    requires
        p.wf(),
        0 <= qubit < p.num_qubits(),
    ensures
        ({
            let back = conjugate_single(
                conjugate_single(p, qubit, SingleGate::S),
                qubit,
                SingleGate::Sdg,
            );
            &&& back.xs == p.xs
            &&& back.zs == p.zs
            &&& (back.phase == p.phase <==> {
                ||| !p.pauli_at(qubit).has_x()
                ||| (p.pauli_at(qubit) == SinglePauli::X && p.phase == Phase::PlusOne)
                ||| (p.pauli_at(qubit) == SinglePauli::Y && p.phase == Phase::MinusI)
            })
        }),
{
    let once = conjugate_single(p, qubit, SingleGate::S);
    let back = conjugate_single(once, qubit, SingleGate::Sdg);
    assert(back.xs =~= p.xs);
    assert(back.zs =~= p.zs);
}

/// S† and then S on a qubit give the components back. They give the phase
/// back too where the qubit holds I or Z, where it holds X and the phase is
/// +1, and where it holds Y and the phase is +i.
pub proof fn lemma_sdg_then_s(p: PauliModel, qubit: int)
    requires
        p.wf(),
        0 <= qubit < p.num_qubits(),
    ensures
        ({
            let back = conjugate_single(
                conjugate_single(p, qubit, SingleGate::Sdg),
                qubit,
                SingleGate::S,
            );
            &&& back.xs == p.xs
            &&& back.zs == p.zs
            &&& (back.phase == p.phase <==> {
                ||| !p.pauli_at(qubit).has_x()
                ||| (p.pauli_at(qubit) == SinglePauli::X && p.phase == Phase::PlusOne)
                ||| (p.pauli_at(qubit) == SinglePauli::Y && p.phase == Phase::PlusI)
            })
        }),
{
    let once = conjugate_single(p, qubit, SingleGate::Sdg);
    let back = conjugate_single(once, qubit, SingleGate::S);
    assert(back.xs =~= p.xs);
    assert(back.zs =~= p.zs);
}

/// SWAP is its own inverse.
pub proof fn lemma_swap_twice(p: PauliModel, qubit1: usize, qubit2: usize)
    requires
        p.wf(),
        qubit1 < p.num_qubits(),
        qubit2 < p.num_qubits(),
    ensures
        conjugate_two(
            conjugate_two(p, TwoGate::SWAP { qubit1, qubit2 }),
            TwoGate::SWAP { qubit1, qubit2 },
        ) == p,
{
    let gate = TwoGate::SWAP { qubit1, qubit2 };
    let twice = conjugate_two(conjugate_two(p, gate), gate);
    assert(twice.xs =~= p.xs);
    assert(twice.zs =~= p.zs);
}

/// CZ is its own inverse.
pub proof fn lemma_cz_twice(p: PauliModel, control: usize, target: usize)
    requires
        p.wf(),
        control < p.num_qubits(),
        target < p.num_qubits(),
        control != target,
    ensures
        conjugate_two(
            conjugate_two(p, TwoGate::CZ { control, target }),
            TwoGate::CZ { control, target },
        ) == p,
{
    let gate = TwoGate::CZ { control, target };
    let twice = conjugate_two(conjugate_two(p, gate), gate);
    assert(twice.xs =~= p.xs);
    assert(twice.zs =~= p.zs);
}

/// CNOT is its own inverse.
pub proof fn lemma_cnot_twice(p: PauliModel, control: usize, target: usize)
    requires
        p.wf(),
        control < p.num_qubits(),
        target < p.num_qubits(),
        control != target,
    ensures
        conjugate_two(
            conjugate_two(p, TwoGate::CNOT { control, target }),
            TwoGate::CNOT { control, target },
        ) == p,
{
    let gate = TwoGate::CNOT { control, target };
    let twice = conjugate_two(conjugate_two(p, gate), gate);
    assert(twice.xs =~= p.xs);
    assert(twice.zs =~= p.zs);
}

/// `p` after `count` S gates on qubit `qubit`.
pub open spec fn after_s_gates(p: PauliModel, qubit: int, count: nat) -> PauliModel
    decreases count,
{
    if count == 0 {
        p
    } else {
        conjugate_single(after_s_gates(p, qubit, (count - 1) as nat), qubit, SingleGate::S)
    }
}

/// S gates on a qubit that holds X, from phase +1: the first gives Y with
/// phase +i, the second X with phase -i, the third Y with phase +1. The
/// fourth gives X again, with phase -1: Y with phase +1 is not the case in
/// which the phase collapses to +1. The other qubits stay as they are.
pub proof fn lemma_s_gates_on_x(p: PauliModel, qubit: int)
    requires
        p.wf(),
        0 <= qubit < p.num_qubits(),
        p.pauli_at(qubit) == SinglePauli::X,
        p.phase == Phase::PlusOne,
    ensures
        after_s_gates(p, qubit, 1) == p.with_pauli(qubit, SinglePauli::Y).with_phase(Phase::PlusI),
        after_s_gates(p, qubit, 2) == p.with_phase(Phase::MinusI),
        after_s_gates(p, qubit, 3) == p.with_pauli(qubit, SinglePauli::Y),
        after_s_gates(p, qubit, 4) == p.with_phase(Phase::MinusOne),
{
    let one = conjugate_single(p, qubit, SingleGate::S);
    let two = conjugate_single(one, qubit, SingleGate::S);
    let three = conjugate_single(two, qubit, SingleGate::S);
    let four = conjugate_single(three, qubit, SingleGate::S);
    assert(after_s_gates(p, qubit, 0) == p);
    assert(after_s_gates(p, qubit, 1) == one);
    assert(after_s_gates(p, qubit, 2) == two);
    assert(after_s_gates(p, qubit, 3) == three);
    assert(after_s_gates(p, qubit, 4) == four);
    assert(one.zs =~= p.with_pauli(qubit, SinglePauli::Y).zs);
    assert(one.xs =~= p.with_pauli(qubit, SinglePauli::Y).xs);
    assert(two.zs =~= p.zs);
    assert(three.zs =~= p.with_pauli(qubit, SinglePauli::Y).zs);
    assert(three.xs =~= p.with_pauli(qubit, SinglePauli::Y).xs);
    assert(four.zs =~= p.zs);
}

/// What CNOT does to the components of its two qubits: X on the control
/// alone spreads to the target; Z on the target alone spreads to the
/// control; X on the control and Z on the target give Y on both and flip the
/// sign; X on both leaves X on the control alone. Nothing else changes.
pub proof fn lemma_cnot_on_components(p: PauliModel, control: usize, target: usize)
    requires
        p.wf(),
        control < p.num_qubits(),
        target < p.num_qubits(),
        control != target,
    ensures
        ({
            let after = conjugate_two(p, TwoGate::CNOT { control, target });
            let c = control as int;
            let t = target as int;
            let on = |a: SinglePauli, b: SinglePauli| p.with_pauli(c, a).with_pauli(t, b);
            &&& p.pauli_at(c) == SinglePauli::X && p.pauli_at(t) == SinglePauli::I ==> after
                == on(SinglePauli::X, SinglePauli::X)
            &&& p.pauli_at(c) == SinglePauli::I && p.pauli_at(t) == SinglePauli::Z ==> after
                == on(SinglePauli::Z, SinglePauli::Z)
            &&& p.pauli_at(c) == SinglePauli::X && p.pauli_at(t) == SinglePauli::Z ==> after
                == on(SinglePauli::Y, SinglePauli::Y).with_phase(
                p.phase.times(Phase::MinusOne),
            )
            &&& p.pauli_at(c) == SinglePauli::X && p.pauli_at(t) == SinglePauli::X ==> after
                == on(SinglePauli::X, SinglePauli::I)
        }),
{
    let after = conjugate_two(p, TwoGate::CNOT { control, target });
    let c = control as int;
    let t = target as int;
    let x = SinglePauli::X;
    let y = SinglePauli::Y;
    let z = SinglePauli::Z;
    let id = SinglePauli::I;
    if p.pauli_at(c) == x && p.pauli_at(t) == id {
        assert(after.xs =~= p.with_pauli(c, x).with_pauli(t, x).xs);
        assert(after.zs =~= p.with_pauli(c, x).with_pauli(t, x).zs);
    }
    if p.pauli_at(c) == id && p.pauli_at(t) == z {
        assert(after.xs =~= p.with_pauli(c, z).with_pauli(t, z).xs);
        assert(after.zs =~= p.with_pauli(c, z).with_pauli(t, z).zs);
    }
    if p.pauli_at(c) == x && p.pauli_at(t) == z {
        assert(after.xs =~= p.with_pauli(c, y).with_pauli(t, y).xs);
        assert(after.zs =~= p.with_pauli(c, y).with_pauli(t, y).zs);
    }
    if p.pauli_at(c) == x && p.pauli_at(t) == x {
        assert(after.xs =~= p.with_pauli(c, x).with_pauli(t, id).xs);
        assert(after.zs =~= p.with_pauli(c, x).with_pauli(t, id).zs);
    }
}

/// A step forward keeps a state well-formed, and so does a step backward.
pub proof fn lemma_steps_keep_wf(s: SimulatorModel)
    requires
        s.wf(),
    ensures
        s.step_forward().wf(),
        s.step_backward().wf(),
        s.step_forward().timeline.len() == s.step_forward().current_time + 1,
        s.step_backward().timeline.len() == s.step_backward().current_time + 1,
{
    if s.can_step_forward() {
        assert(s.gates[s.current_time as int].applies_to(s.num_qubits));
        lemma_conjugate_keeps_qubits(s.pattern, s.gates[s.current_time as int]);
    }
}

/// A step forward that applies a gate is undone by a step backward.
pub proof fn lemma_step_back_undoes(s: SimulatorModel)
    requires
        s.wf(),
        s.can_step_forward(),
    ensures
        s.step_forward().step_backward() == s,
{
    let there = s.step_forward();
    let back = there.step_backward();
    assert(back.timeline =~= s.timeline);
}

/// As many steps backward as steps forward, each of which applied a gate,
/// restore the state: the pattern, the time and the recorded snapshots.
pub proof fn lemma_forward_then_backward(s: SimulatorModel, n: nat)
    requires
        s.wf(),
        s.current_time + n <= s.gates.len(),
    ensures
        s.forward(n).wf(),
        s.forward(n).current_time == s.current_time + n,
        s.forward(n).gates == s.gates,
        s.forward(n).backward(n) == s,
    decreases n,
{
    if n > 0 {
        let next = s.step_forward();
        lemma_steps_keep_wf(s);
        lemma_forward_then_backward(next, (n - 1) as nat);
        lemma_backward_last(next.forward((n - 1) as nat), (n - 1) as nat);
        lemma_step_back_undoes(s);
    }
}

/// Stepping backward `n + 1` times is stepping backward `n` times and once
/// more.
proof fn lemma_backward_last(s: SimulatorModel, n: nat)
    ensures
        s.backward(n + 1) == s.backward(n).step_backward(),
    decreases n,
{
    if n > 0 {
        lemma_backward_last(s.step_backward(), (n - 1) as nat);
    } else {
        assert(s.backward(1) == s.step_backward().backward(0));
    }
}

/// At the end of the circuit, steps forward change nothing.
proof fn lemma_forward_at_end(s: SimulatorModel, n: nat)
    requires
        !s.can_step_forward(),
    ensures
        s.forward(n) == s,
    decreases n,
{
    if n > 0 {
        lemma_forward_at_end(s, (n - 1) as nat);
    }
}

/// Before the first gate, steps backward change nothing.
proof fn lemma_backward_at_start(s: SimulatorModel, n: nat)
    requires
        !s.can_step_backward(),
    ensures
        s.backward(n) == s,
    decreases n,
{
    if n > 0 {
        lemma_backward_at_start(s, (n - 1) as nat);
    }
}

/// From the start of a circuit, `n` steps forward and then `n` steps
/// backward restore the state for every `n`, also one beyond the length of
/// the circuit: the pattern is the initial one and the time is 0.
pub proof fn lemma_undo_from_start(s: SimulatorModel, n: nat)
    requires
        s.wf(),
        s.current_time == 0,
    ensures
        s.forward(n).backward(n) == s,
        s.forward(n).backward(n).pattern == s.pattern,
        s.forward(n).backward(n).current_time == 0,
{
    let depth = s.gates.len();
    if n <= depth {
        lemma_forward_then_backward(s, n);
    } else {
        let extra = (n - depth) as nat;
        lemma_forward_then_backward(s, depth);
        crate::physics::simulator::lemma_forward_split(s, depth, extra);
        lemma_forward_at_end(s.forward(depth), extra);
        assert(s.forward(n) == s.forward(depth));
        lemma_backward_split(s.forward(depth), depth, extra);
        lemma_backward_at_start(s, extra);
    }
}

/// Stepping backward `a` times and then `b` times is stepping backward
/// `a + b` times.
proof fn lemma_backward_split(s: SimulatorModel, a: nat, b: nat)
    ensures
        s.backward(a).backward(b) == s.backward(a + b),
    decreases a,
{
    if a > 0 {
        lemma_backward_split(s.step_backward(), (a - 1) as nat, b);
    }
}

} // verus!
