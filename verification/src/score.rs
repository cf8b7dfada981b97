//! Single-precision numbers as their 32-bit patterns.
//!
//! The library never computes with floating-point values; it carries each one
//! as the 32 bits of its IEEE 754 encoding and reads from those bits the few
//! facts it needs: whether the value is a zero, whether it is finite, and
//! where it stands in the numeric order.
use vstd::prelude::*;

verus! {

/// The pattern of positive zero.
pub const ZERO: u32 = 0;

/// The pattern without its sign bit.
pub open spec fn magnitude(bits: u32) -> int {
    if bits >= 0x8000_0000 {
        bits - 0x8000_0000
    } else {
        bits as int
    }
}

/// Whether the pattern is a finite number: neither an infinity nor a
/// not-a-number.
pub open spec fn is_finite(bits: u32) -> bool {
    magnitude(bits) < 0x7f80_0000
}

/// Whether the pattern is positive or negative zero.
pub open spec fn is_zero(bits: u32) -> bool {
    magnitude(bits) == 0
}

/// Whether every element of the vector is a zero.
pub open spec fn is_zero_vector(vector: Seq<u32>) -> bool {
    forall|i: int| 0 <= i < vector.len() ==> is_zero(#[trigger] vector[i])
}

/// The place of a pattern in the numeric order: of two finite patterns the
/// one with the larger key encodes the larger number, and equal keys encode
/// equal numbers (the two zeros have the same key).
pub open spec fn order_key(bits: u32) -> int {
    if bits >= 0x8000_0000 {
        -magnitude(bits)
    } else {
        magnitude(bits)
    }
}

/// The score that a candidate is ranked with, given the raw cosine that was
/// computed for it.
///
/// The cosine divides by the product of the two norms and is undefined where
/// that product is zero: the division then gives a not-a-number or an
/// infinity. By decision such a pair scores zero: a pair with a zero vector
/// on either side, and any pair whose raw cosine is no finite number. Every
/// other raw cosine stands as it is.
pub open spec fn settled_score(query: Seq<u32>, candidate: Seq<u32>, raw: u32) -> u32 {
    if is_zero_vector(query) || is_zero_vector(candidate) || !is_finite(raw) {
        ZERO
    } else {
        raw
    }
}

/// A zero vector on either side settles the score at zero whatever the raw
/// cosine was, and every settled score is a finite number.
pub proof fn lemma_zero_vector_scores_zero(query: Seq<u32>, candidate: Seq<u32>, raw: u32)
    ensures
        is_zero_vector(candidate) ==> settled_score(query, candidate, raw) == ZERO,
        is_zero_vector(query) ==> settled_score(query, candidate, raw) == ZERO,
        is_finite(settled_score(query, candidate, raw)),
        order_key(ZERO) == 0,
{
}

/// Computes the order key of a pattern.
pub fn key_of(bits: u32) -> (key: i64)
    ensures
        key == order_key(bits),
{
    if bits >= 0x8000_0000 {
        -((bits - 0x8000_0000) as i64)
    } else {
        bits as i64
    }
}

/// Tells whether a pattern is a finite number.
pub fn finite_bits(bits: u32) -> (r: bool)
    ensures
        r == is_finite(bits),
{
    if bits >= 0x8000_0000 {
        bits - 0x8000_0000 < 0x7f80_0000
    } else {
        bits < 0x7f80_0000
    }
}

/// Tells whether every element of a vector is a zero.
pub fn zero_vector(vector: &Vec<u32>) -> (r: bool)
    ensures
        r == is_zero_vector(vector@),
{
    let mut i: usize = 0;
    while i < vector.len()
        invariant
            i <= vector.len(),
            forall|k: int| 0 <= k < i ==> is_zero(#[trigger] vector@[k]),
        decreases vector.len() - i,
    {
        let bits = vector[i];
        if bits != 0 && bits != 0x8000_0000 {
            assert(!is_zero(vector@[i as int]));
            return false;
        }
        i = i + 1;
    }
    true
}

/// Settles the score of one candidate against a query.
pub fn settle_score(query: &Vec<u32>, candidate: &Vec<u32>, raw: u32) -> (score: u32)
    ensures
        score == settled_score(query@, candidate@, raw),
        is_zero_vector(candidate@) ==> score == ZERO,
        is_zero_vector(query@) ==> score == ZERO,
        is_finite(score),
{
    if !finite_bits(raw) || zero_vector(query) || zero_vector(candidate) {
        ZERO
    } else {
        raw
    }
}

} // verus!
