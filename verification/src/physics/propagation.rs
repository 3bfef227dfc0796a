//! How a Pauli operator `P` changes when a Clifford gate `U` acts: the
//! conjugation `U P U†`, gate by gate.

use crate::bits::{test_bit, with_bit};
use crate::physics::circuit::{Gate, SingleGate, TwoGate};
use crate::physics::pauli::{PauliModel, PauliString, Phase};
use vstd::prelude::*;

verus! {

/// `p` with its phase multiplied by -1 if `flip` holds, else `p`.
pub open spec fn negated_if(p: PauliModel, flip: bool) -> PauliModel {
    if flip {
        p.with_phase(p.phase.times(Phase::MinusOne))
    } else {
        p
    }
}

/// The phase after an S gate has acted on a qubit with an X component, where
/// `z` says whether the qubit had a Z component too. Without one, the phase
/// is multiplied by +i. With one, a phase of -i becomes +1, and any other
/// phase is multiplied by -1.
pub open spec fn phase_after_s(phase: Phase, z: bool) -> Phase {
    if !z {
        phase.times(Phase::PlusI)
    } else if phase == Phase::MinusI {
        Phase::PlusOne
    } else {
        phase.times(Phase::MinusOne)
    }
}

/// The phase after an S† gate has acted on a qubit with an X component,
/// where `z` says whether the qubit had a Z component too. Without one, the
/// phase is multiplied by -i. With one, a phase of +i becomes +1, and any
/// other phase stays.
pub open spec fn phase_after_sdg(phase: Phase, z: bool) -> Phase {
    if !z {
        phase.times(Phase::MinusI)
    } else if phase == Phase::PlusI {
        Phase::PlusOne
    } else {
        phase
    }
}

/// The operator `p` after a single-qubit gate has acted on qubit `qubit`.
///
/// With `x` and `z` the components on that qubit beforehand: X, Y and Z
/// leave the components alone and flip the sign if they anticommute
/// with them; H exchanges `x` and `z` and flips the sign of Y; S and S† act
/// only where `x` holds, and there toggle `z`.
pub open spec fn conjugate_single(p: PauliModel, qubit: int, gate: SingleGate) -> PauliModel {
    let x = p.xs[qubit];
    let z = p.zs[qubit];
    match gate {
        SingleGate::I => p,
        SingleGate::X => negated_if(p, z),
        SingleGate::Z => negated_if(p, x),
        SingleGate::Y => negated_if(p, x != z),
        SingleGate::H => negated_if(
            PauliModel { xs: p.xs.update(qubit, z), zs: p.zs.update(qubit, x), phase: p.phase },
            x && z,
        ),
        SingleGate::S => if x {
            PauliModel { xs: p.xs, zs: p.zs.update(qubit, !z), phase: phase_after_s(p.phase, z) }
        } else {
            p
        },
        SingleGate::Sdg => if x {
            PauliModel {
                xs: p.xs,
                zs: p.zs.update(qubit, !z),
                phase: phase_after_sdg(p.phase, z),
            }
        } else {
            p
        },
    }
}

/// The operator `p` after a two-qubit gate has acted.
///
/// CNOT spreads X from the control to the target and Z from the target to
/// the control, and flips the sign if both were there. CZ puts a Z on each
/// of its qubits for an X on the other, and flips the sign if both had an X.
/// SWAP exchanges the components of its two qubits.
pub open spec fn conjugate_two(p: PauliModel, gate: TwoGate) -> PauliModel {
    match gate {
        TwoGate::CNOT { control, target } => {
            let c = control as int;
            let t = target as int;
            negated_if(
                PauliModel {
                    xs: p.xs.update(t, p.xs[t] != p.xs[c]),
                    zs: p.zs.update(c, p.zs[c] != p.zs[t]),
                    phase: p.phase,
                },
                p.xs[c] && p.zs[t],
            )
        },
        TwoGate::CZ { control, target } => {
            let c = control as int;
            let t = target as int;
            negated_if(
                PauliModel {
                    xs: p.xs,
                    zs: p.zs.update(c, p.zs[c] != p.xs[t]).update(t, p.zs[t] != p.xs[c]),
                    phase: p.phase,
                },
                p.xs[c] && p.xs[t],
            )
        },
        TwoGate::SWAP { qubit1, qubit2 } => {
            let a = qubit1 as int;
            let b = qubit2 as int;
            PauliModel {
                xs: p.xs.update(a, p.xs[b]).update(b, p.xs[a]),
                zs: p.zs.update(a, p.zs[b]).update(b, p.zs[a]),
                phase: p.phase,
            }
        },
    }
}

/// The operator `p` after `gate` has acted.
pub open spec fn conjugate(p: PauliModel, gate: Gate) -> PauliModel {
    match gate {
        Gate::Single { qubit, gate } => conjugate_single(p, qubit as int, gate),
        Gate::Two(two) => conjugate_two(p, two),
    }
}

/// A gate that can act on the qubits of an operator gives an operator on the
/// same qubits.
pub proof fn lemma_conjugate_keeps_qubits(p: PauliModel, gate: Gate)
    requires
        p.wf(),
        gate.applies_to(p.num_qubits()),
    ensures
        conjugate(p, gate).wf(),
        conjugate(p, gate).num_qubits() == p.num_qubits(),
{
}

/// Sets the X component on one qubit.
fn set_x(pauli: &mut PauliString, qubit: usize, x: bool)
    requires
        old(pauli).wf(),
        qubit < old(pauli)@.num_qubits(),
    ensures
        final(pauli).wf(),
        final(pauli)@ == (PauliModel { xs: old(pauli)@.xs.update(qubit as int, x), ..old(pauli)@ }),
{
    let word = with_bit(pauli.x_bits(), qubit, x);
    pauli.set_x_bits(word);
    assert(pauli@.xs =~= old(pauli)@.xs.update(qubit as int, x));
}

/// Sets the Z component on one qubit.
fn set_z(pauli: &mut PauliString, qubit: usize, z: bool)
    requires
        old(pauli).wf(),
        qubit < old(pauli)@.num_qubits(),
    ensures
        final(pauli).wf(),
        final(pauli)@ == (PauliModel { zs: old(pauli)@.zs.update(qubit as int, z), ..old(pauli)@ }),
{
    let word = with_bit(pauli.z_bits(), qubit, z);
    pauli.set_z_bits(word);
    assert(pauli@.zs =~= old(pauli)@.zs.update(qubit as int, z));
}

/// Multiplies the phase by -1.
fn negate(pauli: &mut PauliString)
    requires
        old(pauli).wf(),
    ensures
        final(pauli).wf(),
        final(pauli)@ == negated_if(old(pauli)@, true),
{
    let phase = pauli.phase().multiply(Phase::MinusOne);
    pauli.set_phase(phase);
}

/// Lets a single-qubit gate act on qubit `qubit` of the operator.
pub fn apply_single_gate(pauli: &mut PauliString, qubit: usize, gate: SingleGate)
    requires
        old(pauli).wf(),
        qubit < old(pauli)@.num_qubits(),
    ensures
        final(pauli).wf(),
        final(pauli)@ == conjugate_single(old(pauli)@, qubit as int, gate),
        final(pauli)@.num_qubits() == old(pauli)@.num_qubits(),
{
    let x_bit = test_bit(pauli.x_bits(), qubit);
    let z_bit = test_bit(pauli.z_bits(), qubit);
    match gate {
        SingleGate::I => {},
        SingleGate::X => {
            if z_bit {
                negate(pauli);
            }
        },
        SingleGate::Y => {
            if x_bit != z_bit {
                negate(pauli);
            }
        },
        SingleGate::Z => {
            if x_bit {
                negate(pauli);
            }
        },
        SingleGate::H => {
            set_x(pauli, qubit, z_bit);
            set_z(pauli, qubit, x_bit);
            if x_bit && z_bit {
                negate(pauli);
            }
        },
        SingleGate::S => {
            if x_bit {
                set_z(pauli, qubit, !z_bit);
                if !z_bit {
                    pauli.set_phase(pauli.phase().multiply(Phase::PlusI));
                } else if pauli.phase() == Phase::MinusI {
                    pauli.set_phase(Phase::PlusOne);
                } else {
                    pauli.set_phase(pauli.phase().multiply(Phase::MinusOne));
                }
            }
        },
        SingleGate::Sdg => {
            if x_bit {
                set_z(pauli, qubit, !z_bit);
                if !z_bit {
                    pauli.set_phase(pauli.phase().multiply(Phase::MinusI));
                } else if pauli.phase() == Phase::PlusI {
                    pauli.set_phase(Phase::PlusOne);
                }
            }
        },
    }
}

/// Lets a two-qubit gate act on the operator.
pub fn apply_two_gate(pauli: &mut PauliString, gate: TwoGate)
    requires
        old(pauli).wf(),
        gate.applies_to(old(pauli)@.num_qubits()),
    ensures
        final(pauli).wf(),
        final(pauli)@ == conjugate_two(old(pauli)@, gate),
        final(pauli)@.num_qubits() == old(pauli)@.num_qubits(),
{
    match gate {
        TwoGate::CNOT { control, target } => {
            let x_c = test_bit(pauli.x_bits(), control);
            let x_t = test_bit(pauli.x_bits(), target);
            let z_c = test_bit(pauli.z_bits(), control);
            let z_t = test_bit(pauli.z_bits(), target);
            set_x(pauli, target, x_t != x_c);
            set_z(pauli, control, z_c != z_t);
            if x_c && z_t {
                negate(pauli);
            }
        },
        TwoGate::CZ { control, target } => {
            let x_c = test_bit(pauli.x_bits(), control);
            let x_t = test_bit(pauli.x_bits(), target);
            let z_c = test_bit(pauli.z_bits(), control);
            let z_t = test_bit(pauli.z_bits(), target);
            set_z(pauli, control, z_c != x_t);
            set_z(pauli, target, z_t != x_c);
            if x_c && x_t {
                negate(pauli);
            }
        },
        TwoGate::SWAP { qubit1, qubit2 } => {
            if qubit1 == qubit2 {
                assert(pauli@.xs =~= conjugate_two(pauli@, gate).xs);
                assert(pauli@.zs =~= conjugate_two(pauli@, gate).zs);
                return ;
            }
            let x1 = test_bit(pauli.x_bits(), qubit1);
            let z1 = test_bit(pauli.z_bits(), qubit1);
            let x2 = test_bit(pauli.x_bits(), qubit2);
            let z2 = test_bit(pauli.z_bits(), qubit2);
            set_x(pauli, qubit1, x2);
            set_x(pauli, qubit2, x1);
            set_z(pauli, qubit1, z2);
            set_z(pauli, qubit2, z1);
        },
    }
}

/// Lets a gate of a circuit act on the operator.
pub fn apply_gate(pauli: &mut PauliString, gate: &Gate)
    requires
        old(pauli).wf(),
        gate.applies_to(old(pauli)@.num_qubits()),
    ensures
        final(pauli).wf(),
        final(pauli)@ == conjugate(old(pauli)@, *gate),
        final(pauli)@.num_qubits() == old(pauli)@.num_qubits(),
{
    match gate {
        Gate::Single { qubit, gate } => {
            apply_single_gate(pauli, *qubit, *gate);
        },
        Gate::Two(two_gate) => {
            apply_two_gate(pauli, *two_gate);
        },
    }
}

} // verus!
