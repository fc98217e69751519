//! Helper functions and lemmas for working with the bits of a `u64` bitboard.

use vstd::prelude::*;

verus! {

/// True when bit `i` of `b` is set.
pub open spec fn bit64(b: u64, i: u64) -> bool
    recommends
        i < 64,
{
    b & (1u64 << i) != 0
}

/// The number of bits of `b` that are set.
pub open spec fn popcount(b: u64) -> nat
    decreases b,
{
    if b == 0 {
        0
    } else {
        popcount(b / 2) + (b % 2) as nat
    }
}

/// True when at most one bit of `b` is set.
pub open spec fn at_most_one_bit(b: u64) -> bool {
    b & ((b - 1) as u64) == 0
}

/// True when exactly one bit of `b` is set.
pub open spec fn exactly_one_bit(b: u64) -> bool {
    b != 0 && at_most_one_bit(b)
}

/// Returns the count of bits set to one.
pub fn count_ones(value: u64) -> (r: u32)
    ensures
        r == popcount(value),
{
    let mut v: u64 = value;
    let mut c: u32 = 0;
    proof {
        lemma_popcount_bound(value);
    }
    while v != 0
        invariant
            c + popcount(v) == popcount(value),
            popcount(value) <= 64,
        decreases v,
    {
        proof {
            lemma_popcount_bound(v / 2);
            assert(v & 1 == v % 2) by (bit_vector);
            assert(v >> 1u64 == v / 2) by (bit_vector);
        }
        c = c + (v & 1) as u32;
        v = v >> 1u64;
    }
    c
}

/// Returns `true` if at most one bit is set to one.
pub fn at_most_one(value: u64) -> (r: bool)
    ensures
        r == at_most_one_bit(value),
{
    if value == 0 {
        proof {
            assert(0u64 & ((0u64 - 1) as u64) == 0) by (bit_vector);
        }
        true
    } else {
        value & (value - 1) == 0
    }
}

/// Returns `true` if exactly one bit is set to one and the rest are zeroes.
pub fn only_one(value: u64) -> (r: bool)
    ensures
        r == exactly_one_bit(value),
{
    value != 0 && at_most_one(value)
}

/// Returns `true` if two or more bits are set to one.
pub fn more_than_one(value: u64) -> (r: bool)
    ensures
        r == !at_most_one_bit(value),
{
    !at_most_one(value)
}

/// Two to the power `w`.
pub open spec fn pow2i(w: nat) -> int
    decreases w,
{
    if w == 0 {
        1
    } else {
        2 * pow2i((w - 1) as nat)
    }
}

proof fn lemma_popcount_width(b: u64, w: nat)
    requires
        b < pow2i(w),
    ensures
        popcount(b) <= w,
    decreases w,
{
    if b != 0 {
        assert(w != 0);
        assert(b / 2 < pow2i((w - 1) as nat));
        lemma_popcount_width(b / 2, (w - 1) as nat);
    }
}

/// `popcount` never exceeds the width of the word.
pub proof fn lemma_popcount_bound(b: u64)
    ensures
        popcount(b) <= 64,
{
    assert(b < pow2i(64)) by {
        reveal_with_fuel(pow2i, 65);
    }
    lemma_popcount_width(b, 64);
}

/// Bit `i` of a union is set exactly when it is set in either operand.
pub proof fn lemma_bit_or(a: u64, b: u64, i: u64)
    requires
        i < 64,
    ensures
        bit64(a | b, i) == (bit64(a, i) || bit64(b, i)),
{
    assert(i < 64 ==> ((a | b) & (1u64 << i) != 0) == ((a & (1u64 << i) != 0) || (b & (1u64 << i)
        != 0))) by (bit_vector);
}

/// Bit `i` of an intersection is set exactly when it is set in both operands.
pub proof fn lemma_bit_and(a: u64, b: u64, i: u64)
    requires
        i < 64,
    ensures
        bit64(a & b, i) == (bit64(a, i) && bit64(b, i)),
{
    assert(i < 64 ==> ((a & b) & (1u64 << i) != 0) == ((a & (1u64 << i) != 0) && (b & (1u64 << i)
        != 0))) by (bit_vector);
}

/// Bit `i` of an exclusive or is set exactly when the operands disagree on it.
pub proof fn lemma_bit_xor(a: u64, b: u64, i: u64)
    requires
        i < 64,
    ensures
        bit64(a ^ b, i) == (bit64(a, i) != bit64(b, i)),
{
    assert(i < 64 ==> ((a ^ b) & (1u64 << i) != 0) == ((a & (1u64 << i) != 0) != (b & (1u64 << i)
        != 0))) by (bit_vector);
}

/// A one-bit mask has exactly its own bit set.
pub proof fn lemma_bit_single(i: u64, j: u64)
    requires
        i < 64,
        j < 64,
    ensures
        bit64(1u64 << i, j) == (i == j),
{
    assert(i < 64 && j < 64 ==> ((1u64 << i) & (1u64 << j) != 0) == (i == j)) by (bit_vector);
}

/// Intersection of words is commutative.
pub proof fn lemma_and_comm(a: u64, b: u64)
    ensures
        a & b == b & a,
{
    assert(a & b == b & a) by (bit_vector);
}

/// The zero word has no bit set.
pub proof fn lemma_bit_zero(i: u64)
    requires
        i < 64,
    ensures
        !bit64(0u64, i),
{
    assert(0u64 & (1u64 << i) == 0) by (bit_vector);
}

/// The mask selecting the `n` lowest bits of a word.
pub open spec fn lower_mask(n: u64) -> u64 {
    if n >= 64 {
        0xffff_ffff_ffff_ffffu64
    } else {
        ((1u64 << n) - 1) as u64
    }
}

proof fn lemma_ext_upto(a: u64, b: u64, n: u64)
    requires
        n <= 64,
        forall|i: u64| i < n ==> bit64(a, i) == bit64(b, i),
    ensures
        a & lower_mask(n) == b & lower_mask(n),
    decreases n,
{
    if n == 0 {
        assert(a & lower_mask(0) == b & lower_mask(0)) by (bit_vector);
    } else {
        let m: u64 = (n - 1) as u64;
        lemma_ext_upto(a, b, m);
        assert(bit64(a, m) == bit64(b, m));
        assert(m < 64 && a & lower_mask(m) == b & lower_mask(m) && (a & (1u64 << m) != 0) == (b & (
        1u64 << m) != 0) ==> a & lower_mask((m + 1) as u64) == b & lower_mask((m + 1) as u64))
            by (bit_vector);
    }
}

/// Two words that agree on every bit are equal.
pub proof fn lemma_bit_ext(a: u64, b: u64)
    requires
        forall|i: u64| i < 64 ==> bit64(a, i) == bit64(b, i),
    ensures
        a == b,
{
    lemma_ext_upto(a, b, 64);
    assert(a & lower_mask(64) == b & lower_mask(64) ==> a == b) by (bit_vector);
}

/// A word whose only set bit is `i` equals the one-bit mask for `i`.
pub proof fn lemma_single_bit_value(b: u64, i: u64)
    requires
        i < 64,
        forall|j: u64| j < 64 ==> bit64(b, j) == (j == i),
    ensures
        b == 1u64 << i,
        exactly_one_bit(b),
{
    assert forall|j: u64| j < 64 implies bit64(b, j) == bit64(1u64 << i, j) by {
        lemma_bit_single(i, j);
    }
    lemma_bit_ext(b, 1u64 << i);
    assert(i < 64 ==> (1u64 << i) != 0 && (1u64 << i) & (((1u64 << i) - 1) as u64) == 0)
        by (bit_vector);
}

/// A word with two distinct set bits has more than one bit set.
pub proof fn lemma_two_bits(b: u64, i: u64, j: u64)
    requires
        i < 64,
        j < 64,
        i != j,
        bit64(b, i),
        bit64(b, j),
    ensures
        !at_most_one_bit(b),
{
    assert(i < 64 && j < 64 && i != j && b & (1u64 << i) != 0 && b & (1u64 << j) != 0 ==> b & ((b
        - 1) as u64) != 0) by (bit_vector);
}

/// A nonzero word has some bit set.
pub proof fn lemma_nonzero_has_bit(b: u64)
    requires
        b != 0,
    ensures
        exists|i: u64| i < 64 && bit64(b, i),
{
    if forall|i: u64| i < 64 ==> !bit64(b, i) {
        assert forall|i: u64| i < 64 implies bit64(b, i) == bit64(0u64, i) by {
            lemma_bit_zero(i);
        }
        lemma_bit_ext(b, 0);
    }
}

/// Words with no common set bit have an empty intersection, and conversely.
pub proof fn lemma_disjoint_iff(a: u64, b: u64)
    ensures
        (a & b == 0) <==> (forall|i: u64| i < 64 ==> !(bit64(a, i) && bit64(b, i))),
{
    if a & b == 0 {
        assert forall|i: u64| i < 64 implies !(bit64(a, i) && bit64(b, i)) by {
            lemma_bit_and(a, b, i);
            lemma_bit_zero(i);
        }
    } else {
        lemma_nonzero_has_bit(a & b);
        let i = choose|i: u64| i < 64 && bit64(a & b, i);
        lemma_bit_and(a, b, i);
    }
}

} // verus!
