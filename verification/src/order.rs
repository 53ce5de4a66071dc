//! The order of the expiration index.

use std::collections::BTreeMap;
use vstd::prelude::*;

verus! {

/// Pairs of instant and identifier are ordered by instant and then by
/// identifier, and the order obeys the laws that an ordered map relies on.
pub proof fn lemma_pairs_are_ordered()
    ensures
        vstd::laws_cmp::obeys_cmp::<(u64, u64)>(),
{
    broadcast use vstd::laws_cmp::group_laws_cmp;
}

/// `a` does not come after `b` in the index.
pub open spec fn not_after(a: (u64, u64), b: (u64, u64)) -> bool {
    a.0 < b.0 || (a.0 == b.0 && a.1 <= b.1)
}

/// Calls `BTreeMap::first_key_value` and hands back the key: the least
/// key of the map, or nothing if the map is empty.
#[verifier::external_body]
pub(crate) fn first_key(index: &BTreeMap<(u64, u64), String>) -> (r: Option<(u64, u64)>)
    ensures
        match r {
            Some(k) => index@.contains_key(k) && forall|j: (u64, u64)| #[trigger]
                index@.contains_key(j) ==> not_after(k, j),
            None => forall|j: (u64, u64)| !#[trigger] index@.contains_key(j),
        },
{
    index.first_key_value().map(|(k, _)| *k)
}

} // verus!
