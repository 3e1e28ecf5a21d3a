//! Facts about single bits of a 64-bit word, stated once for the set algebra
//! of the board masks.

use vstd::prelude::*;

verus! {

/// Whether bit `i` of `m` is one. Positions from 64 on hold nothing.
pub open spec fn bit_set(m: u64, i: u64) -> bool {
    i < 64 && (m >> i) & 1 == 1
}

/// The positions below `n` at which `m` has a one, counted.
pub open spec fn ones_below(m: u64, n: nat) -> nat
    decreases n,
{
    if n == 0 {
        0
    } else {
        ones_below(m, (n - 1) as nat) + if bit_set(m, (n - 1) as u64) {
            1nat
        } else {
            0nat
        }
    }
}

/// A bit of `a | b` is one where it is one in `a` or in `b`.
pub proof fn lemma_bit_or(a: u64, b: u64, i: u64)
    by (bit_vector)
    ensures
        bit_set(a | b, i) == (bit_set(a, i) || bit_set(b, i)),
{
}

/// A bit of `a & b` is one where it is one in `a` and in `b`.
pub proof fn lemma_bit_and(a: u64, b: u64, i: u64)
    by (bit_vector)
    ensures
        bit_set(a & b, i) == (bit_set(a, i) && bit_set(b, i)),
{
}

/// A bit of `!a` is one where it is zero in `a`.
pub proof fn lemma_bit_not(a: u64, i: u64)
    by (bit_vector)
    ensures
        bit_set(!a, i) == (i < 64 && !bit_set(a, i)),
{
}

/// `1 << j` has bit `j` and no other.
pub proof fn lemma_bit_single(j: u64, i: u64)
    by (bit_vector)
    requires
        j < 64,
    ensures
        bit_set(1u64 << j, i) == (i == j),
{
}

/// Zero has no bit.
pub proof fn lemma_bit_zero(i: u64)
    by (bit_vector)
    ensures
        !bit_set(0u64, i),
{
}

/// Bit `i` of `m << s` is bit `i - s` of `m`.
pub proof fn lemma_bit_shl(m: u64, s: u64, i: u64)
    by (bit_vector)
    requires
        s < 64,
    ensures
        bit_set(m << s, i) == (s <= i && i < 64 && bit_set(m, (i - s) as u64)),
{
}

/// Bit `i` of `m >> s` is bit `i + s` of `m`.
pub proof fn lemma_bit_shr(m: u64, s: u64, i: u64)
    by (bit_vector)
    requires
        s < 64,
    ensures
        bit_set(m >> s, i) == (i + s < 64 && bit_set(m, (i + s) as u64)),
{
}

} // verus!
