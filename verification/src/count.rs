//! Counts that do not fit are reported as such, never wrapped.
//!
//! A count is an `Option<u32>`: `Some(n)` is the exact number, `None` says
//! that the exact number is larger than `u32::MAX`.

use vstd::prelude::*;

verus! {

/// A pair of exact totals: lines first, characters second.
pub open spec fn plus(a: (nat, nat), b: (nat, nat)) -> (nat, nat) {
    (a.0 + b.0, a.1 + b.1)
}

/// The count that stands for the exact number `n`.
pub open spec fn count(n: nat) -> Option<u32> {
    if n <= u32::MAX {
        Some(n as u32)
    } else {
        None
    }
}

/// The count `c` after `n` more have been counted.
pub open spec fn count_add(c: Option<u32>, n: nat) -> Option<u32> {
    match c {
        Some(v) => count(v as nat + n),
        None => None,
    }
}

/// The sum of two counts.
pub open spec fn count_sum(a: Option<u32>, b: Option<u32>) -> Option<u32> {
    match (a, b) {
        (Some(x), Some(y)) => count(x as nat + y as nat),
        _ => None,
    }
}

/// Counting in two steps gives the count of the whole: nothing is lost when
/// one of the parts no longer fits.
pub proof fn lemma_count_sum(c: Option<u32>, m: nat, n: nat)
    ensures
        count_sum(count(m), count(n)) == count(m + n),
        count_sum(c, count(n)) == count_add(c, n),
        count_add(count_add(c, m), n) == count_add(c, m + n),
        count_add(count(m), n) == count(m + n),
        count_add(c, 0) == c,
{
}

/// Counts add up the same in any order and in any grouping.
pub proof fn lemma_count_sum_order(a: Option<u32>, b: Option<u32>, c: Option<u32>)
    ensures
        count_sum(a, b) == count_sum(b, a),
        count_sum(count_sum(a, b), c) == count_sum(a, count_sum(b, c)),
        count_sum(a, Some(0u32)) == a,
{
}

/// The count that stands for a length.
pub fn count_of(n: usize) -> (c: Option<u32>)
    ensures
        c == count(n as nat),
{
    if n <= 0xffff_ffff {
        Some(n as u32)
    } else {
        None
    }
}

/// Adds two counts.
pub fn sum_counts(a: Option<u32>, b: Option<u32>) -> (c: Option<u32>)
    ensures
        c == count_sum(a, b),
{
    match (a, b) {
        (Some(x), Some(y)) => x.checked_add(y),
        _ => None,
    }
}

} // verus!
