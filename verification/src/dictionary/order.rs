//! Ordering of dictionary entries by reading.

use vstd::prelude::*;
use std::cmp::Ordering;
use crate::text::{chars_of, compare_chars, seq_le, seq_lt};
use vstd::relations::sorted_by;

verus! {

/// Order two readings by code point.
pub fn key_order(a: &String, b: &String) -> (r: Ordering)
    ensures
        r == Ordering::Less <==> seq_lt(a@, b@),
        r == Ordering::Equal <==> a@ == b@,
        r == Ordering::Greater <==> seq_lt(b@, a@),
{
    let va = chars_of(a.as_str());
    let vb = chars_of(b.as_str());
    let c = compare_chars(va.as_slice(), vb.as_slice());
    if c < 0 {
        Ordering::Less
    } else if c == 0 {
        Ordering::Equal
    } else {
        Ordering::Greater
    }
}

/// The order of dictionary entries: by reading.
pub open spec fn entry_le(a: (String, String), b: (String, String)) -> bool {
    seq_le(a.0@, b.0@)
}

/// `entry_le` as a relation.
pub open spec fn entry_order() -> spec_fn((String, String), (String, String)) -> bool {
    |a: (String, String), b: (String, String)| entry_le(a, b)
}

/// Entries are in ascending order of reading.
pub open spec fn entries_sorted(v: Seq<(String, String)>) -> bool {
    sorted_by(v, entry_order())
}

/// `after` holds the entries of `before` placed by `p` (`after[i]` is
/// `before[p[i]]`), and entries with equal readings keep their order.
pub open spec fn stably_placed(after: Seq<(String, String)>, before: Seq<(String, String)>, p: Seq<int>) -> bool {
    &&& p.len() == before.len()
    &&& after.len() == before.len()
    &&& forall|i: int| 0 <= i < p.len() ==> 0 <= #[trigger] p[i] < before.len()
    &&& forall|i: int, j: int| 0 <= i < p.len() && 0 <= j < p.len() && i != j ==> #[trigger] p[i] != #[trigger] p[j]
    &&& forall|i: int| 0 <= i < after.len() ==> #[trigger] after[i] == before[p[i]]
    &&& forall|i: int, j: int|
        0 <= i < j < after.len() && (#[trigger] after[i]).0@ == (#[trigger] after[j]).0@ ==> p[i] < p[j]
}

/// Sort entries by reading with `slice::sort_by` and `key_order`.
///
/// Trusted: `sort_by` is a stable sort: it permutes the slice into
/// ascending order of the comparator, which `key_order` makes a total order
/// on readings, and keeps entries that compare equal in their order.
#[verifier::external_body]
pub(crate) fn sort_entries(v: &mut Vec<(String, String)>)
    ensures
        final(v)@.to_multiset() == old(v)@.to_multiset(),
        entries_sorted(final(v)@),
        exists|p: Seq<int>| stably_placed(final(v)@, old(v)@, p),
{
    v.sort_by(|a, b| key_order(&a.0, &b.0));
}

/// In a sorted list, readings do not decrease.
pub proof fn lemma_sorted_le(v: Seq<(String, String)>, i: int, j: int)
    requires
        entries_sorted(v),
        0 <= i <= j < v.len(),
    ensures
        seq_le(v[i].0@, v[j].0@),
{
    if i < j {
        assert(entry_order()(v[i], v[j]));
    }
}

} // verus!
