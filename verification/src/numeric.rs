//! Word-level primitives: the population count and the conversions between
//! the distance type and 64-bit words.

use num_traits::{Bounded, FromPrimitive, PrimInt, ToPrimitive};
use vstd::prelude::*;

verus! {

/// The number of one bits in the binary representation of `x`.
pub open spec fn popcount(x: u64) -> nat
    decreases x,
{
    if x == 0 {
        0
    } else {
        (x % 2) as nat + popcount(x / 2)
    }
}

/// Whether bit `k` of `x` is set.
pub open spec fn bit(x: u64, k: u64) -> bool {
    (x >> k) & 1 == 1
}

proof fn lemma_halves(y: u64, k: u64)
    by (bit_vector)
    requires
        k < 64,
    ensures
        (y | (1u64 << k)) != 0,
        k == 0 ==> (y | (1u64 << k)) / 2 == y / 2 && (y | (1u64 << k)) % 2 == 1 && (bit(y, k) || y
            % 2 == 0),
        k > 0 ==> (y | (1u64 << k)) / 2 == (y / 2) | (1u64 << ((k - 1) as u64)) && (y | (1u64
            << k)) % 2 == y % 2 && bit(y / 2, (k - 1) as u64) == bit(y, k),
{
}

/// Setting a bit that was not set makes the population count one more.
pub proof fn lemma_popcount_with_bit(y: u64, k: u64)
    requires
        k < 64,
        !bit(y, k),
    ensures
        popcount(y | (1u64 << k)) == popcount(y) + 1,
    decreases k,
{
    lemma_halves(y, k);
    if k > 0 {
        lemma_popcount_with_bit(y / 2, (k - 1) as u64);
    }
    assert(popcount(0) == 0);
}

proof fn lemma_single_bit(x: u64, k: u64)
    by (bit_vector)
    requires
        k < 64,
    ensures
        x & (1u64 << k) == 0 || x & (1u64 << k) == 1u64 << k,
        (1u64 << k) != 0,
        0u64 | (1u64 << k) == 1u64 << k,
        !bit(0, k),
{
}

/// Of a word cut down to one bit position, the population count is 1 where
/// the bit is set and 0 where it is not.
pub proof fn lemma_popcount_single(x: u64, k: u64)
    requires
        k < 64,
    ensures
        popcount(x & (1u64 << k)) == (if x & (1u64 << k) != 0 {
            1nat
        } else {
            0nat
        }),
{
    lemma_single_bit(x, k);
    lemma_popcount_with_bit(0, k);
    assert(popcount(0) == 0);
}

/// The word with the `n` bits from bit `k` on set.
pub open spec fn span(k: u64, n: nat) -> u64
    decreases n,
{
    if n == 0 {
        0
    } else {
        (1u64 << k) | span((k + 1) as u64, (n - 1) as nat)
    }
}

proof fn lemma_span_step(x: u64, rest: u64, k: u64, j: u64)
    by (bit_vector)
    requires
        k < 64,
        j < 64,
    ensures
        !bit(rest, k) && bit(x, k) ==> x & ((1u64 << k) | rest) == (x & rest) | (1u64 << k),
        !bit(x, k) ==> x & ((1u64 << k) | rest) == x & rest,
        !bit(rest, k) ==> !bit(x & rest, k),
        bit((1u64 << k) | rest, j) == (j == k || bit(rest, j)),
        x & 0 == 0,
        !bit(0, j),
{
}

proof fn lemma_span_above(k: u64, n: nat, j: u64)
    requires
        j < k,
        k + n <= 64,
    ensures
        !bit(span(k, n), j),
    decreases n,
{
    lemma_span_step(0, 0, 0, j);
    if n > 0 {
        lemma_span_above((k + 1) as u64, (n - 1) as nat, j);
        lemma_span_step(0, span((k + 1) as u64, (n - 1) as nat), k, j);
    }
}

/// The population count over a span of bits is the count over the span
/// without its lowest bit, and one more where that bit is set.
pub proof fn lemma_popcount_span(x: u64, k: u64, n: nat)
    requires
        n >= 1,
        k + n <= 64,
    ensures
        popcount(x & span(k, n)) == popcount(x & span((k + 1) as u64, (n - 1) as nat)) + (if bit(
            x,
            k,
        ) {
            1nat
        } else {
            0nat
        }),
{
    let rest = span((k + 1) as u64, (n - 1) as nat);
    lemma_span_above((k + 1) as u64, (n - 1) as nat, k);
    lemma_span_step(x, rest, k, k);
    if bit(x, k) {
        lemma_popcount_with_bit(x & rest, k);
    }
}

/// Calls `num_traits::PrimInt::count_ones` on a 64-bit word. The contract
/// claims that the call returns the number of one bits of the word.
#[verifier::external_body]
pub(crate) fn count_ones(x: u64) -> (r: u32)
    ensures
        r as nat == popcount(x),
{
    PrimInt::count_ones(x)
}

/// Calls `num_traits::Bounded::max_value` for `u64`. The contract claims
/// that the call returns the word with all 64 bits set.
#[verifier::external_body]
pub(crate) fn word_max() -> (r: u64)
    ensures
        r == u64::MAX,
{
    <u64 as Bounded>::max_value()
}

/// Calls `num_traits::Bounded::max_value` for `usize`. The contract claims
/// that the call returns the largest `usize`.
#[verifier::external_body]
pub(crate) fn dist_max() -> (r: usize)
    ensures
        r == usize::MAX,
{
    <usize as Bounded>::max_value()
}

/// Calls `num_traits::ToPrimitive::to_u64` on a `usize`. The contract claims
/// that the call always succeeds and keeps the number.
#[verifier::external_body]
pub(crate) fn dist_to_u64(d: usize) -> (r: Option<u64>)
    ensures
        r == Some(d as u64),
{
    ToPrimitive::to_u64(&d)
}

/// Calls `num_traits::ToPrimitive::to_u64` on a `u32`. The contract claims
/// that the call always succeeds and keeps the number.
#[verifier::external_body]
pub(crate) fn count_to_u64(c: u32) -> (r: Option<u64>)
    ensures
        r == Some(c as u64),
{
    ToPrimitive::to_u64(&c)
}

/// Calls `num_traits::FromPrimitive::from_u64` for `usize`. The contract
/// claims that the call keeps a number that a `usize` can hold and returns
/// `None` for any other.
#[verifier::external_body]
pub(crate) fn dist_from_u64(x: u64) -> (r: Option<usize>)
    ensures
        x <= usize::MAX ==> r == Some(x as usize),
        x > usize::MAX ==> r.is_none(),
{
    <usize as FromPrimitive>::from_u64(x)
}

} // verus!
