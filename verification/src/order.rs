//! Order statistics: the values of a collection in ascending order, and the
//! ranks at which the median and the ninth decile are read.

use vstd::multiset::Multiset;
use vstd::prelude::*;
use vstd::relations::sorted_by;
use vstd::relations::total_ordering;

verus! {

/// The order of `u32` values.
pub open spec fn le_u32() -> spec_fn(u32, u32) -> bool {
    |a: u32, b: u32| a <= b
}

/// The order of `u64` values.
pub open spec fn le_u64() -> spec_fn(u64, u64) -> bool {
    |a: u64, b: u64| a <= b
}

/// Whether a sequence never descends.
pub open spec fn ascending_u32(s: Seq<u32>) -> bool {
    forall|i: int, j: int| 0 <= i <= j < s.len() ==> s[i] <= s[j]
}

/// Whether a sequence never descends.
pub open spec fn ascending_u64(s: Seq<u64>) -> bool {
    forall|i: int, j: int| 0 <= i <= j < s.len() ==> s[i] <= s[j]
}

/// The values of a collection in ascending order.
pub open spec fn in_order_u32(values: Multiset<u32>) -> Seq<u32> {
    choose|s: Seq<u32>| ascending_u32(s) && s.to_multiset() == values
}

/// The values of a collection in ascending order.
pub open spec fn in_order_u64(values: Multiset<u64>) -> Seq<u64> {
    choose|s: Seq<u64>| ascending_u64(s) && s.to_multiset() == values
}

/// The rank at which the median of `n` values is read: half of `n`, rounded
/// down.
pub open spec fn median_rank(n: nat) -> int {
    n as int / 2
}

/// The rank at which the ninth decile of `n` values is read: nine tenths of
/// `n`, rounded down.
pub open spec fn decile_rank(n: nat) -> int {
    (9 * n as int) / 10
}

/// The median of a collection of values: the value at the median rank of
/// their ascending order.
pub open spec fn median_u32(values: Multiset<u32>) -> u32
    recommends
        values.len() > 0,
{
    in_order_u32(values)[median_rank(values.len())]
}

/// The ninth decile of a collection of values: the value at the decile rank
/// of their ascending order.
pub open spec fn decile_u32(values: Multiset<u32>) -> u32
    recommends
        values.len() > 0,
{
    in_order_u32(values)[decile_rank(values.len())]
}

/// The median of a collection of values: the value at the median rank of
/// their ascending order.
pub open spec fn median_u64(values: Multiset<u64>) -> u64
    recommends
        values.len() > 0,
{
    in_order_u64(values)[median_rank(values.len())]
}

/// The ninth decile of a collection of values: the value at the decile rank
/// of their ascending order.
pub open spec fn decile_u64(values: Multiset<u64>) -> u64
    recommends
        values.len() > 0,
{
    in_order_u64(values)[decile_rank(values.len())]
}

/// An ascending sequence is the ascending order of the values it holds: a
/// collection has one ascending order.
pub proof fn lemma_in_order_u32(s: Seq<u32>)
    requires
        ascending_u32(s),
    ensures
        in_order_u32(s.to_multiset()) == s,
{
    let t = in_order_u32(s.to_multiset());
    assert(ascending_u32(t) && t.to_multiset() == s.to_multiset());
    assert(sorted_by(s, le_u32()));
    assert(sorted_by(t, le_u32()));
    assert(total_ordering(le_u32()));
    vstd::seq_lib::lemma_sorted_unique(t, s, le_u32());
}

/// An ascending sequence is the ascending order of the values it holds: a
/// collection has one ascending order.
pub proof fn lemma_in_order_u64(s: Seq<u64>)
    requires
        ascending_u64(s),
    ensures
        in_order_u64(s.to_multiset()) == s,
{
    let t = in_order_u64(s.to_multiset());
    assert(ascending_u64(t) && t.to_multiset() == s.to_multiset());
    assert(sorted_by(s, le_u64()));
    assert(sorted_by(t, le_u64()));
    assert(total_ordering(le_u64()));
    vstd::seq_lib::lemma_sorted_unique(t, s, le_u64());
}

/// Trusted: `sort` of std's slices, on `u32` values. Afterwards the vector
/// holds the values it held before, in ascending order.
#[verifier::external_body]
pub(crate) fn sort_u32(values: &mut Vec<u32>)
    ensures
        ascending_u32(final(values)@),
        final(values)@.to_multiset() == old(values)@.to_multiset(),
{
    values.sort();
}

/// Trusted: `sort` of std's slices, on `u64` values. Afterwards the vector
/// holds the values it held before, in ascending order.
#[verifier::external_body]
pub(crate) fn sort_u64(values: &mut Vec<u64>)
    ensures
        ascending_u64(final(values)@),
        final(values)@.to_multiset() == old(values)@.to_multiset(),
{
    values.sort();
}

/// The rank at which the median of `n` values is read.
pub fn median_index(n: usize) -> (r: usize)
    ensures
        r == median_rank(n as nat),
        n > 0 ==> r < n,
{
    n / 2
}

/// The rank at which the ninth decile of `n` values is read.
pub fn decile_index(n: usize) -> (r: usize)
    ensures
        r == decile_rank(n as nat),
        n > 0 ==> r < n,
{
    let tens = n / 10;
    let units = n % 10;
    assert(tens * 9 + (units * 9) / 10 == (9 * n) / 10 && tens * 9 + (units * 9) / 10 <= n && (n > 0
        ==> tens * 9 + (units * 9) / 10 < n)) by (nonlinear_arith)
        requires
            tens == n / 10,
            units == n % 10,
            n >= 0,
    ;
    tens * 9 + (units * 9) / 10
}

} // verus!
