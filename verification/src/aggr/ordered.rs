//! Walking the keys of a time series in order.
//!
//! The buckets of a series are held in a `BTreeMap` of the standard library,
//! keyed by the time at which a bucket starts. The two functions that look a
//! key up by its place in the order rest on `BTreeMap::range`; what they
//! state of it is believed by the verifier. The rest is proved from them.

use std::collections::BTreeMap;
use vstd::prelude::*;

verus! {

/// `key` is the least of `keys` that is not below `from`.
pub open spec fn is_least_from(keys: Set<u64>, from: u64, key: u64) -> bool {
    &&& keys.contains(key)
    &&& from <= key
    &&& forall|other: u64| #[trigger] keys.contains(other) && from <= other ==> key <= other
}

/// `key` is the greatest of `keys` that is not above `upto`.
pub open spec fn is_greatest_upto(keys: Set<u64>, upto: u64, key: u64) -> bool {
    &&& keys.contains(key)
    &&& key <= upto
    &&& forall|other: u64| #[trigger] keys.contains(other) && other <= upto ==> other <= key
}

/// None of `keys` lies from `from` to `upto`.
pub open spec fn none_between(keys: Set<u64>, from: u64, upto: u64) -> bool {
    forall|other: u64| #[trigger] keys.contains(other) ==> other < from || upto < other
}

/// `BTreeMap::range` from `from` upward, and the first key that it yields:
/// the least key of the map that is not below `from`, or nothing where the
/// map has no such key.
#[verifier::external_body]
pub(crate) fn key_at_or_after<D>(buckets: &BTreeMap<u64, D>, from: u64) -> (key: Option<u64>)
    ensures
        match key {
            Some(k) => is_least_from(buckets@.dom(), from, k),
            None => none_between(buckets@.dom(), from, u64::MAX),
        },
{
    buckets.range(from..).next().map(|(key, _)| *key)
}

/// `BTreeMap::range` up to `upto`, and the last key that it yields: the
/// greatest key of the map that is not above `upto`, or nothing where the
/// map has no such key.
#[verifier::external_body]
pub(crate) fn key_at_or_before<D>(buckets: &BTreeMap<u64, D>, upto: u64) -> (key: Option<u64>)
    ensures
        match key {
            Some(k) => is_greatest_upto(buckets@.dom(), upto, k),
            None => none_between(buckets@.dom(), 0, upto),
        },
{
    buckets.range(..=upto).next_back().map(|(key, _)| *key)
}

/// The least key above `key`, or nothing where `key` is not below any key.
pub(crate) fn key_after<D>(buckets: &BTreeMap<u64, D>, key: u64) -> (next: Option<u64>)
    ensures
        match next {
            Some(k) => key < k && is_least_from(buckets@.dom(), (key + 1) as u64, k),
            None => none_between(buckets@.dom(), (key + 1) as u64, u64::MAX) || key == u64::MAX,
        },
        next is None ==> forall|other: u64| #[trigger]
            buckets@.dom().contains(other) ==> other <= key,
{
    if key == u64::MAX {
        None
    } else {
        key_at_or_after(buckets, key + 1)
    }
}

/// The greatest key below `key`, or nothing where `key` is not above any key.
pub(crate) fn key_before<D>(buckets: &BTreeMap<u64, D>, key: u64) -> (previous: Option<u64>)
    ensures
        match previous {
            Some(k) => k < key && is_greatest_upto(buckets@.dom(), (key - 1) as u64, k),
            None => none_between(buckets@.dom(), 0, (key - 1) as u64) || key == 0,
        },
        previous is None ==> forall|other: u64| #[trigger]
            buckets@.dom().contains(other) ==> key <= other,
{
    if key == 0 {
        None
    } else {
        key_at_or_before(buckets, key - 1)
    }
}

} // verus!
