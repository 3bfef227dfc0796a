//! Pauli operators in symplectic form: one X bit and one Z bit per qubit, and
//! an overall phase out of {+1, +i, -1, -i}.

use crate::bits::{
    bit, count_true, fits, lemma_bit_ops, lemma_bit_zero, lemma_count_fits,
    lemma_count_true_bound, low_bits, test_bit, with_bit, word_fits,
};
use crate::text::{
    decimal, first_where, lemma_first_where, lemma_first_where_is_first, push_decimal,
    strip_spaces, without_spaces,
};
use vstd::prelude::*;
use vstd::string::StringExecFns;

verus! {

/// A fourth root of unity `i^k`, kept as its exponent `k` modulo 4.
#[derive(Copy, Clone, Debug, PartialEq, Eq, Hash, Structural)]
pub enum Phase {
    PlusOne,
    PlusI,
    MinusOne,
    MinusI,
}

impl Phase {
    /// The exponent `k` in `i^k`, between 0 and 3.
    pub open spec fn exponent(self) -> int {
        match self {
            Phase::PlusOne => 0,
            Phase::PlusI => 1,
            Phase::MinusOne => 2,
            Phase::MinusI => 3,
        }
    }

    /// The phase `i^k`, for any integer `k`.
    pub open spec fn power_of_i(k: int) -> Phase {
        let e = k % 4;
        if e == 0 {
            Phase::PlusOne
        } else if e == 1 {
            Phase::PlusI
        } else if e == 2 {
            Phase::MinusOne
        } else {
            Phase::MinusI
        }
    }

    /// The product of two phases: exponents add modulo 4.
    pub open spec fn times(self, other: Phase) -> Phase {
        Phase::power_of_i(self.exponent() + other.exponent())
    }

    /// The phase `i^value`; only the two lowest bits of `value` matter.
    pub fn from_u8(value: u8) -> (r: Phase)
        ensures
            r == Phase::power_of_i(value as int),
    {
        let low: u8 = value & 3;
        assert(low == value % 4) by (bit_vector)
            requires
                low == value & 3,
        ;
        if low == 0 {
            Phase::PlusOne
        } else if low == 1 {
            Phase::PlusI
        } else if low == 2 {
            Phase::MinusOne
        } else {
            Phase::MinusI
        }
    }

    /// The exponent as a number between 0 and 3.
    pub fn to_u8(self) -> (r: u8)
        ensures
            r == self.exponent(),
    {
        match self {
            Phase::PlusOne => 0,
            Phase::PlusI => 1,
            Phase::MinusOne => 2,
            Phase::MinusI => 3,
        }
    }

    /// Multiplies two phases.
    pub fn multiply(self, other: Phase) -> (r: Phase)
        ensures
            r == self.times(other),
    {
        let sum: u8 = (self.to_u8() + other.to_u8()) % 4;
        Phase::from_u8(sum)
    }

    /// Multiplies by -1.
    pub fn negate(self) -> (r: Phase)
        ensures
            r == self.times(Phase::MinusOne),
    {
        Phase::from_u8((self.to_u8() + 2) % 4)
    }

    /// How the phase is written in front of an operator: nothing for +1.
    pub open spec fn text(self) -> Seq<char> {
        match self {
            Phase::PlusOne => ""@,
            Phase::PlusI => "i"@,
            Phase::MinusOne => "\u{2212}"@,
            Phase::MinusI => "\u{2212}i"@,
        }
    }

    /// The phase as text.
    pub fn to_string(&self) -> (r: String)
        ensures
            r@ == self.text(),
    {
        match self {
            Phase::PlusOne => String::from_str(""),
            Phase::PlusI => String::from_str("i"),
            Phase::MinusOne => String::from_str("\u{2212}"),
            Phase::MinusI => String::from_str("\u{2212}i"),
        }
    }
}

/// `a ^ b` is the product of the two phases.
impl core::ops::BitXor for Phase {
    type Output = Phase;

    fn bitxor(self, rhs: Phase) -> (r: Phase) {
        self.multiply(rhs)
    }
}

impl vstd::std_specs::ops::BitXorSpecImpl for Phase {
    open spec fn obeys_bitxor_spec() -> bool {
        true
    }

    open spec fn bitxor_req(self, rhs: Phase) -> bool {
        true
    }

    open spec fn bitxor_spec(self, rhs: Phase) -> Phase {
        self.times(rhs)
    }
}

/// `a ^= b` multiplies `a` by `b`.
impl core::ops::BitXorAssign for Phase {
    fn bitxor_assign(&mut self, rhs: Phase)
        ensures
            *final(self) == old(self).times(rhs),
    {
        *self = self.multiply(rhs);
    }
}

/// One of the four single-qubit Pauli operators, without a phase.
#[derive(Copy, Clone, Debug, PartialEq, Eq, Structural)]
pub enum SinglePauli {
    I,
    X,
    Y,
    Z,
}

impl SinglePauli {
    /// Whether the operator has an X component (X and Y do).
    pub open spec fn has_x(self) -> bool {
        self == SinglePauli::X || self == SinglePauli::Y
    }

    /// Whether the operator has a Z component (Z and Y do).
    pub open spec fn has_z(self) -> bool {
        self == SinglePauli::Z || self == SinglePauli::Y
    }

    /// The operator with the given components: (0,0) is I, (1,0) is X,
    /// (0,1) is Z and (1,1) is Y.
    pub open spec fn from_bits(x: bool, z: bool) -> SinglePauli {
        if x && z {
            SinglePauli::Y
        } else if x {
            SinglePauli::X
        } else if z {
            SinglePauli::Z
        } else {
            SinglePauli::I
        }
    }

    /// The operator that a character of a pattern stands for, in either case.
    pub open spec fn of_char(c: char) -> Option<SinglePauli> {
        if c == 'I' || c == 'i' {
            Some(SinglePauli::I)
        } else if c == 'X' || c == 'x' {
            Some(SinglePauli::X)
        } else if c == 'Y' || c == 'y' {
            Some(SinglePauli::Y)
        } else if c == 'Z' || c == 'z' {
            Some(SinglePauli::Z)
        } else {
            None
        }
    }

    /// The letter of the operator.
    pub open spec fn letter(self) -> char {
        match self {
            SinglePauli::I => 'I',
            SinglePauli::X => 'X',
            SinglePauli::Y => 'Y',
            SinglePauli::Z => 'Z',
        }
    }

    /// Reads one character of a pattern.
    pub fn from_char(c: char) -> (r: Option<SinglePauli>)
        ensures
            r == SinglePauli::of_char(c),
    {
        if c == 'I' || c == 'i' {
            Some(SinglePauli::I)
        } else if c == 'X' || c == 'x' {
            Some(SinglePauli::X)
        } else if c == 'Y' || c == 'y' {
            Some(SinglePauli::Y)
        } else if c == 'Z' || c == 'z' {
            Some(SinglePauli::Z)
        } else {
            None
        }
    }

    /// The letter of the operator.
    pub fn to_char(self) -> (r: char)
        ensures
            r == self.letter(),
    {
        match self {
            SinglePauli::I => 'I',
            SinglePauli::X => 'X',
            SinglePauli::Y => 'Y',
            SinglePauli::Z => 'Z',
        }
    }

    /// The operator as text: its letter.
    pub fn to_string(&self) -> (r: String)
        ensures
            r@ == seq![self.letter()],
    {
        let mut out = String::new();
        out.push(self.to_char());
        assert(out@ =~= seq![self.letter()]);
        out
    }
}

/// Entry by entry, whether both sequences hold true.
pub open spec fn both(a: Seq<bool>, b: Seq<bool>) -> Seq<bool> {
    Seq::new(a.len(), |i: int| a[i] && b[i])
}

/// Entry by entry, whether the two sequences differ (exclusive or).
pub open spec fn differ(a: Seq<bool>, b: Seq<bool>) -> Seq<bool> {
    Seq::new(a.len(), |i: int| a[i] != b[i])
}

/// An n-qubit Pauli operator as mathematics: for each qubit whether it has an
/// X and a Z component, and one overall phase.
pub struct PauliModel {
    /// For each qubit, whether the operator has an X component on it.
    pub xs: Seq<bool>,
    /// For each qubit, whether the operator has a Z component on it.
    pub zs: Seq<bool>,
    /// The overall phase.
    pub phase: Phase,
}

impl PauliModel {
    /// One X entry and one Z entry per qubit, for at most 64 qubits.
    pub open spec fn wf(self) -> bool {
        self.xs.len() == self.zs.len() && self.xs.len() <= 64
    }

    /// The number of qubits that the operator acts on.
    pub open spec fn num_qubits(self) -> nat {
        self.xs.len()
    }

    /// The identity on `n` qubits, with phase +1.
    pub open spec fn identity(n: nat) -> PauliModel {
        PauliModel {
            xs: Seq::new(n, |i: int| false),
            zs: Seq::new(n, |i: int| false),
            phase: Phase::PlusOne,
        }
    }

    /// The tensor product of the given operators, with phase +1.
    pub open spec fn from_paulis(ps: Seq<SinglePauli>) -> PauliModel {
        PauliModel {
            xs: Seq::new(ps.len(), |i: int| ps[i].has_x()),
            zs: Seq::new(ps.len(), |i: int| ps[i].has_z()),
            phase: Phase::PlusOne,
        }
    }

    /// The operator on qubit `q`.
    pub open spec fn pauli_at(self, q: int) -> SinglePauli {
        SinglePauli::from_bits(self.xs[q], self.zs[q])
    }

    /// The same operator with `p` on qubit `q`.
    pub open spec fn with_pauli(self, q: int, p: SinglePauli) -> PauliModel {
        PauliModel { xs: self.xs.update(q, p.has_x()), zs: self.zs.update(q, p.has_z()), ..self }
    }

    /// The same operator with another phase.
    pub open spec fn with_phase(self, phase: Phase) -> PauliModel {
        PauliModel { phase, ..self }
    }

    /// The exponent of `i` that the product `self * other` picks up from the
    /// order of the X and Z components: the qubits where `self` has X and
    /// `other` has Z count +1, those where `self` has Z and `other` has X
    /// count -1.
    pub open spec fn symplectic_exponent(self, other: PauliModel) -> int {
        count_true(both(self.xs, other.zs)) - count_true(both(self.zs, other.xs))
    }

    /// The product `self * other`, `self` on the left.
    pub open spec fn times(self, other: PauliModel) -> PauliModel {
        PauliModel {
            xs: differ(self.xs, other.xs),
            zs: differ(self.zs, other.zs),
            phase: self.phase.times(other.phase).times(
                Phase::power_of_i(self.symplectic_exponent(other)),
            ),
        }
    }

    /// Whether the two operators commute: they have as many qubits, and the
    /// number of qubits on which their components anticommute is even.
    pub open spec fn commutes(self, other: PauliModel) -> bool {
        self.num_qubits() == other.num_qubits() && count_true(
            differ(both(self.xs, other.zs), both(self.zs, other.xs)),
        ) % 2 == 0
    }

    /// The letters of the first `k` qubits, one space between neighbours.
    pub open spec fn letters(self, k: nat) -> Seq<char>
        decreases k,
    {
        if k == 0 {
            Seq::empty()
        } else if k == 1 {
            seq![self.pauli_at(0).letter()]
        } else {
            (self.letters((k - 1) as nat) + " "@).push(self.pauli_at(k - 1).letter())
        }
    }

    /// The operator as text: the phase unless it is +1, then the letters.
    pub open spec fn text(self) -> Seq<char> {
        self.phase.text() + self.letters(self.num_qubits())
    }
}

/// What `PauliString::from_str` reports for a pattern that it rejects:
/// `chars` is the pattern without its white space.
pub open spec fn pattern_error(chars: Seq<char>, num_qubits: nat) -> Seq<char> {
    if chars.len() != num_qubits {
        "String length "@ + decimal(chars.len()) + " doesn't match num_qubits "@ + decimal(
            num_qubits,
        )
    } else {
        let k = first_foreign(chars);
        if k < 64 && k < chars.len() {
            "Invalid Pauli character: "@.push(chars[k as int])
        } else {
            "Too many qubits (max 64)"@
        }
    }
}

/// The position of the first character that stands for no Pauli operator, or
/// the length of `chars` if there is none.
pub open spec fn first_foreign(chars: Seq<char>) -> nat {
    first_where(chars, |c: char| SinglePauli::of_char(c) is None)
}

/// Whether a pattern, white space taken out, describes an operator on
/// `num_qubits` qubits: one letter per qubit, at most 64 of them.
pub open spec fn pattern_accepted(chars: Seq<char>, num_qubits: nat) -> bool {
    &&& chars.len() == num_qubits
    &&& num_qubits <= 64
    &&& forall|i: int| 0 <= i < chars.len() ==> SinglePauli::of_char(#[trigger] chars[i]) is Some
}

/// The operators that the letters of an accepted pattern stand for.
pub open spec fn pattern_paulis(chars: Seq<char>) -> Seq<SinglePauli> {
    Seq::new(chars.len(), |i: int| SinglePauli::of_char(chars[i]).unwrap())
}

/// An n-qubit Pauli operator, bit-packed: bit `i` of `x_bits` and of `z_bits`
/// are the X and Z components on qubit `i`.
#[derive(Debug, PartialEq, Eq, Hash, Structural)]
pub struct PauliString {
    x_bits: u64,
    z_bits: u64,
    phase: Phase,
    num_qubits: usize,
}

impl Clone for PauliString {
    fn clone(&self) -> (r: Self)
        ensures
            r == *self,
    {
        PauliString {
            x_bits: self.x_bits,
            z_bits: self.z_bits,
            phase: self.phase,
            num_qubits: self.num_qubits,
        }
    }
}

impl View for PauliString {
    type V = PauliModel;

    open spec fn view(&self) -> PauliModel {
        PauliModel {
            xs: low_bits(self.x_word(), self.width()),
            zs: low_bits(self.z_word(), self.width()),
            phase: self.sign(),
        }
    }
}

impl PauliString {
    /// The word that packs the X components.
    pub closed spec fn x_word(&self) -> u64 {
        self.x_bits
    }

    /// The word that packs the Z components.
    pub closed spec fn z_word(&self) -> u64 {
        self.z_bits
    }

    /// The overall phase.
    pub closed spec fn sign(&self) -> Phase {
        self.phase
    }

    /// The number of qubits.
    pub closed spec fn width(&self) -> nat {
        self.num_qubits as nat
    }

    /// At most 64 qubits, and no bit set at a position that is no qubit.
    pub open spec fn wf(&self) -> bool {
        &&& self.width() <= 64
        &&& fits(self.x_word(), self.width())
        &&& fits(self.z_word(), self.width())
    }

    /// The identity on `num_qubits` qubits, with phase +1.
    pub fn new(num_qubits: usize) -> (r: Self)
        requires
            num_qubits <= 64,
        ensures
            r.wf(),
            r@ == PauliModel::identity(num_qubits as nat),
    {
        let r = PauliString { x_bits: 0, z_bits: 0, phase: Phase::PlusOne, num_qubits };
        proof {
            lemma_bit_zero();
            assert(r@.xs =~= PauliModel::identity(num_qubits as nat).xs);
            assert(r@.zs =~= PauliModel::identity(num_qubits as nat).zs);
        }
        r
    }

    /// The operator with the given components and phase, where the words
    /// hold no bit at a position that is no qubit and there are at most 64
    /// qubits; none otherwise.
    pub fn from_parts(x_bits: u64, z_bits: u64, phase: Phase, num_qubits: usize) -> (r: Option<
        Self,
    >)
        ensures
            r is Some <==> num_qubits <= 64 && fits(x_bits, num_qubits as nat) && fits(
                z_bits,
                num_qubits as nat,
            ),
            r matches Some(p) ==> p.wf() && p.x_word() == x_bits && p.z_word() == z_bits
                && p.sign() == phase && p.width() == num_qubits,
    {
        if num_qubits > 64 {
            return None;
        }
        if !word_fits(x_bits, num_qubits) || !word_fits(z_bits, num_qubits) {
            return None;
        }
        Some(PauliString { x_bits, z_bits, phase, num_qubits })
    }

    /// Reads an operator from a pattern with one letter per qubit, out of
    /// `I`, `X`, `Y`, `Z` in either case; white space is ignored. The phase
    /// is +1.
    pub fn from_str(s: &str, num_qubits: usize) -> (r: Result<Self, String>)
        ensures
            r is Ok <==> pattern_accepted(without_spaces(s@), num_qubits as nat),
            r matches Ok(p) ==> p.wf() && p@ == PauliModel::from_paulis(
                pattern_paulis(without_spaces(s@)),
            ),
            r matches Err(e) ==> e@ == pattern_error(without_spaces(s@), num_qubits as nat),
    {
        let chars = strip_spaces(s);
        if chars.len() != num_qubits {
            let mut e = String::from_str("String length ");
            push_decimal(&mut e, chars.len());
            e.append(" doesn't match num_qubits ");
            push_decimal(&mut e, num_qubits);
            return Err(e);
        }
        let mut p = PauliString { x_bits: 0, z_bits: 0, phase: Phase::PlusOne, num_qubits };
        proof {
            lemma_bit_zero();
        }
        let mut i: usize = 0;
        while i < chars.len()
            invariant
                i <= chars.len() == num_qubits,
                i <= 64,
                chars@ == without_spaces(s@),
                p.num_qubits == num_qubits,
                p.phase == Phase::PlusOne,
                fits(p.x_bits, i as nat),
                fits(p.z_bits, i as nat),
                forall|j: int| 0 <= j < i ==> SinglePauli::of_char(#[trigger] chars@[j]) is Some,
                forall|j: int|
                    0 <= j < i ==> bit(p.x_bits, j) == (#[trigger] pattern_paulis(
                        chars@,
                    )[j]).has_x(),
                forall|j: int|
                    0 <= j < i ==> bit(p.z_bits, j) == (#[trigger] pattern_paulis(
                        chars@,
                    )[j]).has_z(),
            decreases chars.len() - i,
        {
            if i >= 64 {
                proof {
                    lemma_first_where_is_first(
                        chars@,
                        |c: char| SinglePauli::of_char(c) is None,
                    );
                }
                return Err(String::from_str("Too many qubits (max 64)"));
            }
            let c = chars[i];
            match SinglePauli::from_char(c) {
                None => {
                    let mut e = String::from_str("Invalid Pauli character: ");
                    e.push(c);
                    proof {
                        lemma_first_where(
                            chars@,
                            |c: char| SinglePauli::of_char(c) is None,
                            i as nat,
                        );
                    }
                    return Err(e);
                },
                Some(pauli) => {
                    let x: bool = matches!(pauli, SinglePauli::X | SinglePauli::Y);
                    let z: bool = matches!(pauli, SinglePauli::Z | SinglePauli::Y);
                    p.x_bits = with_bit(p.x_bits, i, x);
                    p.z_bits = with_bit(p.z_bits, i, z);
                },
            }
            i += 1;
        }
        proof {
            assert(p@.xs =~= PauliModel::from_paulis(pattern_paulis(chars@)).xs);
            assert(p@.zs =~= PauliModel::from_paulis(pattern_paulis(chars@)).zs);
        }
        Ok(p)
    }

    /// The number of qubits.
    pub fn num_qubits(&self) -> (r: usize)
        ensures
            r == self@.num_qubits(),
            r == self.width(),
    {
        self.num_qubits
    }

    /// The overall phase.
    pub fn phase(&self) -> (r: Phase)
        ensures
            r == self@.phase,
    {
        self.phase
    }

    /// The operator on qubit `qubit`.
    pub fn get_pauli(&self, qubit: usize) -> (r: SinglePauli)
        requires
            self.wf(),
            qubit < self@.num_qubits(),
        ensures
            r == self@.pauli_at(qubit as int),
    {
        let x = test_bit(self.x_bits, qubit);
        let z = test_bit(self.z_bits, qubit);
        if x && z {
            SinglePauli::Y
        } else if x {
            SinglePauli::X
        } else if z {
            SinglePauli::Z
        } else {
            SinglePauli::I
        }
    }

    /// Puts `pauli` on qubit `qubit`; the other qubits and the phase stay.
    pub fn set_pauli(&mut self, qubit: usize, pauli: SinglePauli)
        requires
            old(self).wf(),
            qubit < old(self)@.num_qubits(),
        ensures
            final(self).wf(),
            final(self)@ == old(self)@.with_pauli(qubit as int, pauli),
    {
        let x: bool = matches!(pauli, SinglePauli::X | SinglePauli::Y);
        let z: bool = matches!(pauli, SinglePauli::Z | SinglePauli::Y);
        self.x_bits = with_bit(self.x_bits, qubit, x);
        self.z_bits = with_bit(self.z_bits, qubit, z);
        proof {
            assert(self@.xs =~= old(self)@.with_pauli(qubit as int, pauli).xs);
            assert(self@.zs =~= old(self)@.with_pauli(qubit as int, pauli).zs);
        }
    }

    /// The product `self * other` of two operators on as many qubits.
    pub fn multiply(&self, other: &Self) -> (r: Self)
        requires
            self.wf(),
            other.wf(),
            self@.num_qubits() == other@.num_qubits(),
        ensures
            r.wf(),
            r@ == self@.times(other@),
    {
        let new_x_bits = self.x_bits ^ other.x_bits;
        let new_z_bits = self.z_bits ^ other.z_bits;
        let mut phase = self.phase.multiply(other.phase);
        let x1_and_z2 = self.x_bits & other.z_bits;
        let z1_and_x2 = self.z_bits & other.x_bits;
        let positive_contrib: u32 = x1_and_z2.count_ones();
        let negative_contrib: u32 = z1_and_x2.count_ones();
        proof {
            let n = self.width();
            lemma_bit_ops(self.x_bits, other.x_bits);
            lemma_bit_ops(self.z_bits, other.z_bits);
            lemma_bit_ops(self.x_bits, other.z_bits);
            lemma_bit_ops(self.z_bits, other.x_bits);
            lemma_count_fits(x1_and_z2, n);
            lemma_count_fits(z1_and_x2, n);
            assert(low_bits(x1_and_z2, n) =~= both(self@.xs, other@.zs));
            assert(low_bits(z1_and_x2, n) =~= both(self@.zs, other@.xs));
            lemma_count_true_bound(low_bits(x1_and_z2, n));
            lemma_count_true_bound(low_bits(z1_and_x2, n));
            assert(low_bits(new_x_bits, n) =~= differ(self@.xs, other@.xs));
            assert(low_bits(new_z_bits, n) =~= differ(self@.zs, other@.zs));
        }
        let phase_exponent: u32 = (positive_contrib % 4 + 4 - negative_contrib % 4) % 4;
        assert(phase_exponent == (positive_contrib - negative_contrib) % 4);
        if phase_exponent != 0 {
            let phase_factor = Phase::from_u8(phase_exponent as u8);
            phase = phase.multiply(phase_factor);
        }
        PauliString {
            x_bits: new_x_bits,
            z_bits: new_z_bits,
            phase,
            num_qubits: self.num_qubits,
        }
    }

    /// The product `self * other`, or the reason why there is none: the two
    /// operators must act on as many qubits.
    pub fn try_multiply(&self, other: &Self) -> (r: Result<Self, String>)
        requires
            self.wf(),
            other.wf(),
        ensures
            r is Ok <==> self@.num_qubits() == other@.num_qubits(),
            r matches Ok(p) ==> p.wf() && p@ == self@.times(other@),
            r matches Err(e) ==> e@ == "Cannot multiply Pauli strings with different qubit counts"@,
    {
        if self.num_qubits != other.num_qubits {
            Err(String::from_str("Cannot multiply Pauli strings with different qubit counts"))
        } else {
            Ok(self.multiply(other))
        }
    }

    /// Whether the two operators commute. Operators on different numbers of
    /// qubits never do.
    pub fn commutes_with(&self, other: &Self) -> (r: bool)
        requires
            self.wf(),
            other.wf(),
        ensures
            r == self@.commutes(other@),
    {
        if self.num_qubits != other.num_qubits {
            return false;
        }
        let x1_and_z2 = self.x_bits & other.z_bits;
        let z1_and_x2 = self.z_bits & other.x_bits;
        let symplectic_product = x1_and_z2 ^ z1_and_x2;
        proof {
            let n = self.width();
            lemma_bit_ops(self.x_bits, other.z_bits);
            lemma_bit_ops(self.z_bits, other.x_bits);
            lemma_bit_ops(x1_and_z2, z1_and_x2);
            lemma_count_fits(symplectic_product, n);
            assert(low_bits(symplectic_product, n) =~= differ(
                both(self@.xs, other@.zs),
                both(self@.zs, other@.xs),
            ));
        }
        symplectic_product.count_ones() % 2 == 0
    }

    /// The X components, bit `i` for qubit `i`.
    pub fn x_bits(&self) -> (r: u64)
        ensures
            r == self.x_word(),
            low_bits(r, self@.num_qubits()) == self@.xs,
            self.wf() ==> fits(r, self@.num_qubits()),
    {
        self.x_bits
    }

    /// The Z components, bit `i` for qubit `i`.
    pub fn z_bits(&self) -> (r: u64)
        ensures
            r == self.z_word(),
            low_bits(r, self@.num_qubits()) == self@.zs,
            self.wf() ==> fits(r, self@.num_qubits()),
    {
        self.z_bits
    }

    /// Replaces the X components. A bit at a position that is no qubit must
    /// not be set.
    pub fn set_x_bits(&mut self, x_bits: u64)
        requires
            fits(x_bits, old(self).width()),
        ensures
            final(self).x_word() == x_bits,
            final(self).z_word() == old(self).z_word(),
            final(self).sign() == old(self).sign(),
            final(self).width() == old(self).width(),
            final(self)@ == (PauliModel {
                xs: low_bits(x_bits, old(self)@.num_qubits()),
                ..old(self)@
            }),
            old(self).wf() ==> final(self).wf(),
    {
        self.x_bits = x_bits;
    }

    /// Replaces the Z components. A bit at a position that is no qubit must
    /// not be set.
    pub fn set_z_bits(&mut self, z_bits: u64)
        requires
            fits(z_bits, old(self).width()),
        ensures
            final(self).z_word() == z_bits,
            final(self).x_word() == old(self).x_word(),
            final(self).sign() == old(self).sign(),
            final(self).width() == old(self).width(),
            final(self)@ == (PauliModel {
                zs: low_bits(z_bits, old(self)@.num_qubits()),
                ..old(self)@
            }),
            old(self).wf() ==> final(self).wf(),
    {
        self.z_bits = z_bits;
    }

    /// Replaces the phase.
    pub fn set_phase(&mut self, phase: Phase)
        ensures
            final(self).sign() == phase,
            final(self).x_word() == old(self).x_word(),
            final(self).z_word() == old(self).z_word(),
            final(self).width() == old(self).width(),
            final(self)@ == old(self)@.with_phase(phase),
            old(self).wf() ==> final(self).wf(),
    {
        self.phase = phase;
    }

    /// The operator as text: the phase unless it is +1, then one letter per
    /// qubit with a space between neighbours.
    pub fn to_string(&self) -> (r: String)
        requires
            self.wf(),
        ensures
            r@ == self@.text(),
    {
        let mut out = self.phase.to_string();
        let mut i: usize = 0;
        while i < self.num_qubits
            invariant
                self.wf(),
                i <= self.num_qubits,
                out@ == self@.phase.text() + self@.letters(i as nat),
            decreases self.num_qubits - i,
        {
            if i > 0 {
                out.append(" ");
            }
            out.push(self.get_pauli(i).to_char());
            assert(out@ =~= self@.phase.text() + self@.letters((i + 1) as nat));
            i += 1;
        }
        out
    }
}

} // verus!
