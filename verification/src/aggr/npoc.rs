//! Whether price has come back to a point of control.
//!
//! A later bucket covers a price when the price lies between the low of its
//! candle, rounded down to the price step, and the high, rounded up. The
//! first later bucket that covers the price of a point of control fills it;
//! what comes after that bucket does not matter.

use crate::aggr::routing::buckets_in_place;
use crate::chart::kline::Bucket;
use crate::chart::kline::Footprint;
use crate::chart::kline::NPoc;
use crate::market::Kline;
use crate::price::Price;
use crate::price::PriceStep;
use vstd::prelude::*;

verus! {

/// `price` lies between the low of `kline`, rounded down to the step, and
/// its high, rounded up.
pub open spec fn covers(kline: Kline, price: Price, step: PriceStep) -> bool {
    kline.low.side_rounded(true, step).units <= price.units <= kline.high.side_rounded(
        false,
        step,
    ).units
}

/// The bucket at `at` is the first after the bucket at `key` that covers
/// `price`.
pub open spec fn is_first_cover(
    buckets: Map<u64, Bucket>,
    key: u64,
    price: Price,
    step: PriceStep,
    at: u64,
) -> bool {
    &&& buckets.contains_key(at)
    &&& key < at
    &&& covers(buckets[at].kline, price, step)
    &&& forall|other: u64| #[trigger]
        buckets.contains_key(other) && key < other < at ==> !covers(
            buckets[other].kline,
            price,
            step,
        )
}

/// No bucket after the bucket at `key` covers `price`.
pub open spec fn never_covered(
    buckets: Map<u64, Bucket>,
    key: u64,
    price: Price,
    step: PriceStep,
) -> bool {
    forall|other: u64| #[trigger]
        buckets.contains_key(other) && key < other ==> !covers(buckets[other].kline, price, step)
}

/// `status` is the status of a point of control at `price` in the bucket at
/// `key`: filled at the first later bucket that covers the price, naked
/// where there is none.
pub open spec fn is_status_of(
    buckets: Map<u64, Bucket>,
    key: u64,
    price: Price,
    step: PriceStep,
    status: NPoc,
) -> bool {
    match status {
        NPoc::Filled { at } => is_first_cover(buckets, key, price, step, at),
        NPoc::Naked => never_covered(buckets, key, price, step),
        NPoc::Unset => false,
    }
}

/// `after` is the bucket of `before` at `key` with the status of its point
/// of control settled; a bucket without a point of control is as it was.
pub open spec fn bucket_settled(
    before: Map<u64, Bucket>,
    key: u64,
    after: Bucket,
    step: PriceStep,
) -> bool {
    &&& after.kline == before[key].kline
    &&& after.footprint.bins == before[key].footprint.bins
    &&& match before[key].footprint.poc {
        Some(poc) => match after.footprint.poc {
            Some(now) => now.price == poc.price && now.volume == poc.volume && is_status_of(
                before,
                key,
                poc.price,
                step,
                now.status,
            ),
            None => false,
        },
        None => after.footprint.poc is None,
    }
}

/// `after` holds the buckets of `before` with the status of every point of
/// control settled.
pub open spec fn statuses_settled(
    before: Map<u64, Bucket>,
    after: Map<u64, Bucket>,
    step: PriceStep,
) -> bool {
    &&& after.dom() == before.dom()
    &&& forall|key: u64| #[trigger]
        before.contains_key(key) ==> bucket_settled(before, key, after[key], step)
}

/// `buckets` after the candles of `klines` have been put in, in their
/// order: a candle replaces the candle of the bucket that starts at its
/// time, or opens that bucket with an empty footprint.
pub open spec fn with_klines(buckets: Map<u64, Bucket>, klines: Seq<Kline>) -> Map<u64, Bucket>
    decreases klines.len(),
{
    if klines.len() == 0 {
        buckets
    } else {
        with_kline(with_klines(buckets, klines.drop_last()), klines.last())
    }
}

/// `buckets` after one candle has been put in.
pub open spec fn with_kline(buckets: Map<u64, Bucket>, kline: Kline) -> Map<u64, Bucket> {
    buckets.insert(
        kline.time,
        Bucket {
            kline,
            footprint: if buckets.contains_key(kline.time) {
                buckets[kline.time].footprint
            } else {
                Footprint::empty()
            },
        },
    )
}

/// Every candle of `klines` starts at a multiple of `ms`.
pub open spec fn klines_aligned(klines: Seq<Kline>, ms: u64) -> bool {
    forall|i: int| 0 <= i < klines.len() ==> (#[trigger] klines[i]).time % ms == 0
}

/// A point of control has one status.
pub proof fn lemma_status_unique(
    buckets: Map<u64, Bucket>,
    key: u64,
    price: Price,
    step: PriceStep,
    one: NPoc,
    other: NPoc,
)
    requires
        is_status_of(buckets, key, price, step, one),
        is_status_of(buckets, key, price, step, other),
    ensures
        one == other,
{
    match (one, other) {
        (NPoc::Filled { at: a }, NPoc::Filled { at: b }) => {
            assert(buckets.contains_key(a) && buckets.contains_key(b));
            if a < b {
                assert(!covers(buckets[a].kline, price, step));
            }
            if b < a {
                assert(!covers(buckets[b].kline, price, step));
            }
        },
        (NPoc::Filled { at: a }, NPoc::Naked) => {
            assert(buckets.contains_key(a));
        },
        (NPoc::Naked, NPoc::Filled { at: b }) => {
            assert(buckets.contains_key(b));
        },
        _ => {},
    }
}

/// Once a later bucket has covered the price of a point of control, the
/// status is filled at the first such bucket, whatever the buckets after it
/// hold.
pub proof fn lemma_first_fill_stays(
    buckets: Map<u64, Bucket>,
    key: u64,
    price: Price,
    step: PriceStep,
    status: NPoc,
    first: u64,
)
    requires
        is_status_of(buckets, key, price, step, status),
        is_first_cover(buckets, key, price, step, first),
    ensures
        status == (NPoc::Filled { at: first }),
{
    lemma_status_unique(buckets, key, price, step, status, NPoc::Filled { at: first });
}

/// The status of a point of control depends on the candles alone.
pub proof fn lemma_status_by_klines(
    one: Map<u64, Bucket>,
    other: Map<u64, Bucket>,
    key: u64,
    price: Price,
    step: PriceStep,
    status: NPoc,
)
    requires
        one.dom() == other.dom(),
        forall|at: u64| #[trigger] one.contains_key(at) ==> one[at].kline == other[at].kline,
        is_status_of(one, key, price, step, status),
    ensures
        is_status_of(other, key, price, step, status),
{
    match status {
        NPoc::Filled { at } => {
            assert(other.contains_key(at));
            assert forall|between: u64| #[trigger]
                other.contains_key(between) && key < between < at implies !covers(
                other[between].kline,
                price,
                step,
            ) by {
                assert(one.contains_key(between));
            }
        },
        NPoc::Naked => {
            assert forall|later: u64| #[trigger]
                other.contains_key(later) && key < later implies !covers(
                other[later].kline,
                price,
                step,
            ) by {
                assert(one.contains_key(later));
            }
        },
        NPoc::Unset => {},
    }
}

/// One more candle at the end of a batch is put in after the batch.
pub proof fn lemma_with_klines_push(buckets: Map<u64, Bucket>, klines: Seq<Kline>, kline: Kline)
    ensures
        with_klines(buckets, klines.push(kline)) == with_kline(with_klines(buckets, klines), kline),
{
    assert(klines.push(kline).drop_last() =~= klines);
    assert(klines.push(kline).last() == kline);
}

/// Candles put into a series without trades leave it without trades.
pub proof fn lemma_with_klines_keeps_empty(buckets: Map<u64, Bucket>, klines: Seq<Kline>)
    requires
        forall|key: u64| #[trigger]
            buckets.contains_key(key) ==> buckets[key].footprint == Footprint::empty(),
    ensures
        forall|key: u64| #[trigger]
            with_klines(buckets, klines).contains_key(key) ==> with_klines(
                buckets,
                klines,
            )[key].footprint == Footprint::empty(),
    decreases klines.len(),
{
    if klines.len() > 0 {
        lemma_with_klines_keeps_empty(buckets, klines.drop_last());
    }
}

/// A series built from candles alone has no trades and no point of control
/// in any footprint.
pub proof fn lemma_new_series_is_empty(
    klines: Seq<Kline>,
    buckets: Map<u64, Bucket>,
    step: PriceStep,
)
    requires
        statuses_settled(with_klines(Map::empty(), klines), buckets, step),
    ensures
        forall|key: u64| #[trigger]
            buckets.contains_key(key) ==> buckets[key].footprint == Footprint::empty(),
{
    let built = with_klines(Map::empty(), klines);
    lemma_with_klines_keeps_empty(Map::empty(), klines);
    assert forall|key: u64| #[trigger] buckets.contains_key(key) implies buckets[key].footprint
        == Footprint::empty() by {
        assert(built.contains_key(key));
        assert(bucket_settled(built, key, buckets[key], step));
        assert(buckets[key].footprint.bins =~= Map::empty());
    }
}

/// The buckets after candles have been put in are the buckets that were
/// there and those at the times of the candles.
pub proof fn lemma_with_klines_keys(buckets: Map<u64, Bucket>, klines: Seq<Kline>, key: u64)
    ensures
        with_klines(buckets, klines).contains_key(key) <==> buckets.contains_key(key) || exists|
            i: int,
        |
            0 <= i < klines.len() && (#[trigger] klines[i]).time == key,
    decreases klines.len(),
{
    if klines.len() > 0 {
        let rest = klines.drop_last();
        lemma_with_klines_keys(buckets, rest, key);
        if exists|i: int| 0 <= i < rest.len() && (#[trigger] rest[i]).time == key {
            let i = choose|i: int| 0 <= i < rest.len() && (#[trigger] rest[i]).time == key;
            assert(klines[i] == rest[i]);
        }
        if klines.last().time == key {
            assert(klines[klines.len() - 1].time == key);
        }
        if exists|i: int| 0 <= i < klines.len() && (#[trigger] klines[i]).time == key {
            let i = choose|i: int| 0 <= i < klines.len() && (#[trigger] klines[i]).time == key;
            if i < rest.len() {
                assert(rest[i] == klines[i]);
            }
        }
    }
}

/// Once a bucket has filled a point of control, buckets that come after
/// that bucket change nothing: the fill stays where it is in every series
/// that holds the same buckets up to it.
pub proof fn lemma_fill_is_permanent(
    one: Map<u64, Bucket>,
    other: Map<u64, Bucket>,
    key: u64,
    price: Price,
    step: PriceStep,
    at: u64,
)
    requires
        is_first_cover(one, key, price, step, at),
        forall|between: u64|
            key < between <= at ==> (#[trigger] one.contains_key(between)
                <==> #[trigger] other.contains_key(between)),
        forall|between: u64| #[trigger]
            one.contains_key(between) && key < between <= at ==> one[between].kline
                == other[between].kline,
    ensures
        is_status_of(other, key, price, step, NPoc::Filled { at }),
{
    assert(other.contains_key(at));
    assert forall|between: u64| #[trigger]
        other.contains_key(between) && key < between < at implies !covers(
        other[between].kline,
        price,
        step,
    ) by {
        assert(one.contains_key(between));
    }
}

/// Candles that start at multiples of the interval leave every bucket in
/// its place.
pub proof fn lemma_with_klines_in_place(buckets: Map<u64, Bucket>, klines: Seq<Kline>, ms: u64)
    requires
        buckets_in_place(buckets, ms),
        klines_aligned(klines, ms),
    ensures
        buckets_in_place(with_klines(buckets, klines), ms),
    decreases klines.len(),
{
    if klines.len() > 0 {
        let rest = klines.drop_last();
        assert forall|i: int| 0 <= i < rest.len() implies (#[trigger] rest[i]).time % ms == 0 by {
            assert(rest[i] == klines[i]);
        }
        lemma_with_klines_in_place(buckets, rest, ms);
        assert(klines[klines.len() - 1] == klines.last());
    }
}

/// To settle the status of every point of control leaves every bucket in
/// its place.
pub proof fn lemma_settled_in_place(
    before: Map<u64, Bucket>,
    after: Map<u64, Bucket>,
    step: PriceStep,
    ms: u64,
)
    requires
        statuses_settled(before, after, step),
        buckets_in_place(before, ms),
    ensures
        buckets_in_place(after, ms),
{
    assert forall|key: u64| #[trigger] after.contains_key(key) implies {
        &&& key % ms == 0
        &&& after[key].kline.time == key
        &&& crate::aggr::routing::times_within(after[key].footprint, key, ms)
    } by {
        assert(before.contains_key(key));
        assert(bucket_settled(before, key, after[key], step));
    }
}

} // verus!
