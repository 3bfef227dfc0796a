//! Single bits of a 64-bit word, seen as booleans.

use vstd::prelude::*;

verus! {

/// Whether bit `i` of `w` is set. Positions outside `0..64` hold no bit.
pub open spec fn bit(w: u64, i: int) -> bool {
    0 <= i < 64 && (w >> (i as u64)) & 1 == 1
}

/// The lowest `n` bits of `w`, least significant first.
pub open spec fn low_bits(w: u64, n: nat) -> Seq<bool> {
    Seq::new(n, |i: int| bit(w, i))
}

/// No bit of `w` is set at position `n` or above.
pub open spec fn fits(w: u64, n: nat) -> bool {
    forall|i: int| n <= i < 64 ==> !#[trigger] bit(w, i)
}

/// How many entries of `s` are true.
pub open spec fn count_true(s: Seq<bool>) -> nat
    decreases s.len(),
{
    if s.len() == 0 {
        0
    } else {
        count_true(s.drop_last()) + if s.last() { 1nat } else { 0nat }
    }
}

/// The number of true entries is at most the length.
pub proof fn lemma_count_true_bound(s: Seq<bool>)
    ensures
        count_true(s) <= s.len(),
    decreases s.len(),
{
    if s.len() > 0 {
        lemma_count_true_bound(s.drop_last());
    }
}

/// `u64::count_ones` returns the number of bits that are set in the binary
/// representation of the word, all 64 positions counted.
pub assume_specification[ u64::count_ones ](w: u64) -> (r: u32)
    ensures
        r == count_true(low_bits(w, 64)),
;

/// Setting or clearing bit `i` changes bit `i` and no other.
proof fn lemma_shifted_or(w: u64, i: u64, j: u64)
    by (bit_vector)
    requires
        i < 64,
        j < 64,
    ensures
        ((w | (1u64 << i)) >> j) & 1 == (if j == i { 1u64 } else { (w >> j) & 1 }),
        ((w & !(1u64 << i)) >> j) & 1 == (if j == i { 0u64 } else { (w >> j) & 1 }),
{
}

/// Each bit of `a ^ b` and of `a & b` comes from the same bit of `a` and `b`.
proof fn lemma_shifted_ops(a: u64, b: u64, j: u64)
    by (bit_vector)
    requires
        j < 64,
    ensures
        ((a ^ b) >> j) & 1 == ((a >> j) & 1) ^ ((b >> j) & 1),
        ((a & b) >> j) & 1 == ((a >> j) & 1) & ((b >> j) & 1),
        (0u64 >> j) & 1 == 0,
        ((a >> j) & 1) == 0 || ((a >> j) & 1) == 1,
{
}

/// On single bits, `^` is inequality and `&` is conjunction.
proof fn lemma_small_ops(a: u64, b: u64)
    by (bit_vector)
    requires
        a <= 1,
        b <= 1,
    ensures
        (a ^ b == 1) <==> (a != b),
        (a & b == 1) <==> (a == 1 && b == 1),
{
}

/// The zero word has no bit set.
pub proof fn lemma_bit_zero()
    ensures
        forall|i: int| !#[trigger] bit(0, i),
{
    assert forall|i: int| !#[trigger] bit(0, i) by {
        if 0 <= i < 64 {
            lemma_shifted_ops(0, 0, i as u64);
        }
    }
}

/// Bit by bit, `^` is inequality and `&` is conjunction.
pub proof fn lemma_bit_ops(a: u64, b: u64)
    ensures
        forall|i: int| #[trigger] bit(a ^ b, i) == (bit(a, i) != bit(b, i)),
        forall|i: int| #[trigger] bit(a & b, i) == (bit(a, i) && bit(b, i)),
{
    assert forall|i: int| #[trigger] bit(a ^ b, i) == (bit(a, i) != bit(b, i)) by {
        if 0 <= i < 64 {
            lemma_shifted_ops(a, b, i as u64);
            lemma_shifted_ops(b, a, i as u64);
            lemma_small_ops((a >> (i as u64)) & 1, (b >> (i as u64)) & 1);
        }
    }
    assert forall|i: int| #[trigger] bit(a & b, i) == (bit(a, i) && bit(b, i)) by {
        if 0 <= i < 64 {
            lemma_shifted_ops(a, b, i as u64);
            lemma_shifted_ops(b, a, i as u64);
            lemma_small_ops((a >> (i as u64)) & 1, (b >> (i as u64)) & 1);
        }
    }
}

/// Reads bit `i` of `w`.
pub fn test_bit(w: u64, i: usize) -> (r: bool)
    requires
        i < 64,
    ensures
        r == bit(w, i as int),
{
    (w >> (i as u64)) & 1 == 1
}

/// `w` with bit `i` set to `b` and every other bit as it was.
pub fn with_bit(w: u64, i: usize, b: bool) -> (r: u64)
    requires
        i < 64,
    ensures
        forall|j: int| #[trigger] bit(r, j) == (if j == i { b } else { bit(w, j) }),
{
    let r: u64 = if b {
        w | (1u64 << (i as u64))
    } else {
        w & !(1u64 << (i as u64))
    };
    proof {
        assert forall|j: int| #[trigger] bit(r, j) == (if j == i { b } else { bit(w, j) }) by {
            if 0 <= j < 64 {
                lemma_shifted_or(w, i as u64, j as u64);
            }
        }
    }
    r
}

/// Tests whether no bit of `w` is set at position `n` or above.
pub fn word_fits(w: u64, n: usize) -> (r: bool)
    requires
        n <= 64,
    ensures
        r == fits(w, n as nat),
{
    let mut i: usize = n;
    while i < 64
        invariant
            n <= i <= 64,
            forall|j: int| n <= j < i ==> !#[trigger] bit(w, j),
        decreases 64 - i,
    {
        if test_bit(w, i) {
            return false;
        }
        i += 1;
    }
    true
}

/// Counting over 64 positions and over the lowest `n` agree on a word that
/// has nothing set above them.
pub proof fn lemma_count_fits(w: u64, n: nat)
    requires
        n <= 64,
        fits(w, n),
    ensures
        count_true(low_bits(w, 64)) == count_true(low_bits(w, n)),
{
    lemma_count_fits_upto(w, n, 64);
}

/// Counting over the lowest `k` positions and over the lowest `n` agree on a
/// word that has nothing set from `n` on.
proof fn lemma_count_fits_upto(w: u64, n: nat, k: nat)
    requires
        n <= k <= 64,
        fits(w, n),
    ensures
        count_true(low_bits(w, k)) == count_true(low_bits(w, n)),
    decreases k - n,
{
    if k > n {
        let shorter = (k - 1) as nat;
        assert(low_bits(w, k).drop_last() =~= low_bits(w, shorter));
        assert(!bit(w, k - 1));
        lemma_count_fits_upto(w, n, shorter);
    }
}

} // verus!
