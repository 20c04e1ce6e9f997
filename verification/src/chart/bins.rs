//! The price bins of a footprint, held in a hash map of `rustc_hash`.
//!
//! The map is the hash map of the standard library with the hasher of
//! `rustc_hash`, keyed by the price of a bin in atomic units. Its contents
//! are its view, a `Map` from price to bin. The verifier's library says what
//! looking up, inserting and walking do only for hashers that it knows; this
//! hasher it does not know. So what these three do on a map with this hasher
//! is stated here and believed by the verifier, and the rest of the library
//! is proved from these statements. An empty map, `clear` and `is_empty` need
//! no such statement.

use crate::chart::kline::GroupedTrades;
use rustc_hash::FxBuildHasher;
use rustc_hash::FxHashMap;
use vstd::prelude::*;

verus! {

/// The hasher builder of `rustc_hash`, which the verifier carries through
/// without looking inside.
#[verifier::external_type_specification]
#[verifier::external_body]
pub struct ExFxBuildHasher(FxBuildHasher);

/// `entries` lists the bins of `bins`: each entry is a price of `bins` with
/// its bin, each price of `bins` has an entry, and no price has two.
pub open spec fn lists_bins(
    entries: Seq<(i64, GroupedTrades)>,
    bins: Map<i64, GroupedTrades>,
) -> bool {
    &&& forall|i: int|
        0 <= i < entries.len() ==> bins.contains_key(#[trigger] entries[i].0) && bins[entries[i].0]
            == entries[i].1
    &&& forall|price: i64|
        bins.contains_key(price) ==> exists|i: int|
            0 <= i < entries.len() && #[trigger] entries[i].0 == price
    &&& forall|i: int, j: int|
        0 <= i < j < entries.len() ==> #[trigger] entries[i].0 != #[trigger] entries[j].0
}

/// `HashMap::get` on a map with the hasher of `rustc_hash`: the bin at
/// `price`, if the map holds one.
#[verifier::external_body]
pub(crate) fn bin_at(bins: &FxHashMap<i64, GroupedTrades>, price: i64) -> (bin: Option<
    GroupedTrades,
>)
    ensures
        bin == (if bins@.contains_key(price) {
            Some(bins@[price])
        } else {
            None::<GroupedTrades>
        }),
{
    bins.get(&price).copied()
}

/// `HashMap::insert` on a map with the hasher of `rustc_hash`: afterwards
/// the map holds `bin` at `price`, and at every other price what it held.
#[verifier::external_body]
pub(crate) fn put_bin(bins: &mut FxHashMap<i64, GroupedTrades>, price: i64, bin: GroupedTrades)
    ensures
        final(bins)@ == old(bins)@.insert(price, bin),
{
    bins.insert(price, bin);
}

/// `HashMap::iter` on a map with the hasher of `rustc_hash`: every price of
/// the map once, with its bin, in the order in which the map is walked.
#[verifier::external_body]
pub(crate) fn bin_entries(bins: &FxHashMap<i64, GroupedTrades>) -> (entries: Vec<
    (i64, GroupedTrades),
>)
    ensures
        lists_bins(entries@, bins@),
{
    bins.iter().map(|(price, bin)| (*price, *bin)).collect()
}

} // verus!
