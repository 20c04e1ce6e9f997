//! The gap in the trades of a candle series, and what to fetch for it.
//!
//! A bucket whose footprint has no trades is one whose trades never came.
//! The gap is at the last such bucket. What is worth fetching lies between
//! the last trade before the gap and the first trade after it, within what
//! is visible.

use crate::aggr::ordered::is_greatest_upto;
use crate::aggr::ordered::is_least_from;
use crate::aggr::routing::buckets_in_place;
use crate::chart::kline::lemma_trade_times_unique;
use crate::chart::kline::Bucket;
use vstd::prelude::*;

verus! {

/// The bucket at `gap` has no trades and every later bucket has some.
pub open spec fn is_gap(buckets: Map<u64, Bucket>, gap: u64) -> bool {
    &&& buckets.contains_key(gap)
    &&& !buckets[gap].footprint.has_trades()
    &&& forall|other: u64| #[trigger]
        buckets.contains_key(other) && gap < other ==> buckets[other].footprint.has_trades()
}

/// Every bucket has trades.
pub open spec fn no_gap(buckets: Map<u64, Bucket>) -> bool {
    forall|key: u64| #[trigger] buckets.contains_key(key) ==> buckets[key].footprint.has_trades()
}

/// `time` is the latest trade time of the nearest bucket before `gap` that
/// has trades, or nothing where no bucket before `gap` has trades.
pub open spec fn is_last_before(buckets: Map<u64, Bucket>, gap: u64, time: Option<u64>) -> bool {
    match time {
        Some(t) => exists|key: u64|
            {
                &&& #[trigger] buckets.contains_key(key)
                &&& key < gap
                &&& buckets[key].footprint.is_last_trade(t)
                &&& is_nearest_before(buckets, gap, key)
            },
        None => forall|key: u64| #[trigger]
            buckets.contains_key(key) && key < gap ==> !buckets[key].footprint.has_trades(),
    }
}

/// No bucket between the bucket at `key` and `gap` has trades.
pub open spec fn is_nearest_before(buckets: Map<u64, Bucket>, gap: u64, key: u64) -> bool {
    forall|other: u64| #[trigger]
        buckets.contains_key(other) && key < other < gap ==> !buckets[other].footprint.has_trades()
}

/// `time` is the earliest trade time of the nearest bucket after `gap` that
/// has trades, or nothing where no bucket after `gap` has trades.
pub open spec fn is_first_after(buckets: Map<u64, Bucket>, gap: u64, time: Option<u64>) -> bool {
    match time {
        Some(t) => exists|key: u64|
            {
                &&& #[trigger] buckets.contains_key(key)
                &&& gap < key
                &&& buckets[key].footprint.is_first_trade(t)
                &&& is_nearest_after(buckets, gap, key)
            },
        None => forall|key: u64| #[trigger]
            buckets.contains_key(key) && gap < key ==> !buckets[key].footprint.has_trades(),
    }
}

/// No bucket between `gap` and the bucket at `key` has trades.
pub open spec fn is_nearest_after(buckets: Map<u64, Bucket>, gap: u64, key: u64) -> bool {
    forall|other: u64| #[trigger]
        buckets.contains_key(other) && gap < other < key ==> !buckets[other].footprint.has_trades()
}

/// `edges` holds the trade times on both sides of the gap of `buckets`.
pub open spec fn is_trade_gap(
    buckets: Map<u64, Bucket>,
    edges: (Option<u64>, Option<u64>),
) -> bool {
    exists|gap: u64| #[trigger]
        is_gap(buckets, gap) && is_last_before(buckets, gap, edges.0) && is_first_after(
            buckets,
            gap,
            edges.1,
        )
}

/// The greater of two times.
pub open spec fn later_of(a: u64, b: u64) -> u64 {
    if a >= b {
        a
    } else {
        b
    }
}

/// The lesser of two times.
pub open spec fn earlier_of(a: u64, b: u64) -> u64 {
    if a <= b {
        a
    } else {
        b
    }
}

/// What to fetch for a gap with the trade times `edges` on its sides, in a
/// series that reaches from `data_earliest` to `data_latest`, of which
/// `visible_earliest` to `visible_latest` is visible: from the millisecond
/// after the last trade before the gap, or from the start of the series, to
/// the millisecond before the first trade after the gap, or to the last
/// bucket; both held within what is visible. Nothing where no trade is known
/// on either side, nor where the range does not begin before it ends.
pub open spec fn fetch_window(
    edges: (Option<u64>, Option<u64>),
    data_earliest: u64,
    data_latest: u64,
    visible_earliest: u64,
    visible_latest: u64,
) -> Option<(u64, u64)> {
    if edges.0 is None && edges.1 is None {
        None
    } else {
        let fetch_from = later_of(
            match edges.0 {
                Some(t) => if t == u64::MAX {
                    t
                } else {
                    (t + 1) as u64
                },
                None => data_earliest,
            },
            visible_earliest,
        );
        let fetch_to = earlier_of(
            match edges.1 {
                Some(t) => if t == 0 {
                    t
                } else {
                    (t - 1) as u64
                },
                None => data_latest,
            },
            visible_latest,
        );
        if fetch_from < fetch_to {
            Some((fetch_from, fetch_to))
        } else {
            None
        }
    }
}

/// `range` is what to fetch for the gap of `buckets`.
pub open spec fn is_fetch_range(
    buckets: Map<u64, Bucket>,
    visible_earliest: u64,
    visible_latest: u64,
    range: Option<(u64, u64)>,
) -> bool {
    exists|edges: (Option<u64>, Option<u64>), data: (u64, u64)|
        {
            &&& #[trigger] is_trade_gap(buckets, edges)
            &&& #[trigger] is_data_range(buckets.dom(), data)
            &&& range == fetch_window(edges, data.0, data.1, visible_earliest, visible_latest)
        }
}

/// `data` holds the least and the greatest of `keys`.
pub open spec fn is_data_range(keys: Set<u64>, data: (u64, u64)) -> bool {
    is_least_from(keys, 0, data.0) && is_greatest_upto(keys, u64::MAX, data.1)
}

/// The range to fetch, computed from the trade times on the sides of the
/// gap and the reach of the series.
pub fn fetch_range(
    edges: (Option<u64>, Option<u64>),
    data_earliest: u64,
    data_latest: u64,
    visible_earliest: u64,
    visible_latest: u64,
) -> (range: Option<(u64, u64)>)
    ensures
        range == fetch_window(edges, data_earliest, data_latest, visible_earliest, visible_latest),
{
    let (last_t_before_gap, first_t_after_gap) = edges;
    if last_t_before_gap.is_none() && first_t_after_gap.is_none() {
        return None;
    }
    let from = match last_t_before_gap {
        Some(t) => t.saturating_add(1),
        None => data_earliest,
    };
    let fetch_from = if from >= visible_earliest {
        from
    } else {
        visible_earliest
    };
    let to = match first_t_after_gap {
        Some(t) => t.saturating_sub(1),
        None => data_latest,
    };
    let fetch_to = if to <= visible_latest {
        to
    } else {
        visible_latest
    };
    if fetch_from < fetch_to {
        Some((fetch_from, fetch_to))
    } else {
        None
    }
}

/// Two multiples of the interval lie at least an interval apart.
proof fn lemma_starts_apart(earlier: u64, later: u64, ms: u64)
    requires
        ms > 0,
        earlier % ms == 0,
        later % ms == 0,
        earlier < later,
    ensures
        earlier + ms <= later,
{
    let i = ms as int;
    let a = earlier as int;
    let b = later as int;
    vstd::arithmetic::div_mod::lemma_fundamental_div_mod(a, i);
    vstd::arithmetic::div_mod::lemma_fundamental_div_mod(b, i);
    assert(a + i <= b) by (nonlinear_arith)
        requires
            a == i * (a / i),
            b == i * (b / i),
            a < b,
            i > 0,
    ;
}

/// Where every bucket is in its place, the trade time before the gap is the
/// latest of the last trade times of all the buckets before the gap, not
/// only of the nearest: no bin of an earlier bucket holds a later one.
pub proof fn lemma_last_before_is_latest(
    buckets: Map<u64, Bucket>,
    ms: u64,
    gap: u64,
    time: u64,
    key: u64,
    price: i64,
)
    requires
        ms > 0,
        buckets_in_place(buckets, ms),
        is_last_before(buckets, gap, Some(time)),
        buckets.contains_key(key),
        key < gap,
        buckets[key].footprint.bins.contains_key(price),
    ensures
        buckets[key].footprint.bins[price].last_time <= time,
{
    let nearest = choose|nearest: u64|
        {
            &&& #[trigger] buckets.contains_key(nearest)
            &&& nearest < gap
            &&& buckets[nearest].footprint.is_last_trade(time)
            &&& is_nearest_before(buckets, gap, nearest)
        };
    let held = choose|held: i64| #[trigger]
        buckets[nearest].footprint.bins.contains_key(held)
            && buckets[nearest].footprint.bins[held].last_time == time;
    assert(buckets[nearest].footprint.bins.contains_key(held));
    if key < nearest {
        lemma_starts_apart(key, nearest, ms);
    } else if key > nearest {
        assert(!buckets[key].footprint.has_trades());
        assert(buckets[key].footprint.bins.dom().contains(price));
    }
}

/// Where every bucket is in its place, the trade time after the gap is the
/// earliest of the first trade times of all the buckets after the gap, not
/// only of the nearest: no bin of a later bucket holds an earlier one.
pub proof fn lemma_first_after_is_earliest(
    buckets: Map<u64, Bucket>,
    ms: u64,
    gap: u64,
    time: u64,
    key: u64,
    price: i64,
)
    requires
        ms > 0,
        buckets_in_place(buckets, ms),
        is_first_after(buckets, gap, Some(time)),
        buckets.contains_key(key),
        gap < key,
        buckets[key].footprint.bins.contains_key(price),
    ensures
        time <= buckets[key].footprint.bins[price].first_time,
{
    let nearest = choose|nearest: u64|
        {
            &&& #[trigger] buckets.contains_key(nearest)
            &&& gap < nearest
            &&& buckets[nearest].footprint.is_first_trade(time)
            &&& is_nearest_after(buckets, gap, nearest)
        };
    let held = choose|held: i64| #[trigger]
        buckets[nearest].footprint.bins.contains_key(held)
            && buckets[nearest].footprint.bins[held].first_time == time;
    assert(buckets[nearest].footprint.bins.contains_key(held));
    if nearest < key {
        lemma_starts_apart(nearest, key, ms);
    } else if key < nearest {
        assert(!buckets[key].footprint.has_trades());
        assert(buckets[key].footprint.bins.dom().contains(price));
    }
}

/// A series has one gap, and the gap has one pair of trade times on its
/// sides.
pub proof fn lemma_trade_gap_unique(
    buckets: Map<u64, Bucket>,
    one: (Option<u64>, Option<u64>),
    other: (Option<u64>, Option<u64>),
)
    requires
        is_trade_gap(buckets, one),
        is_trade_gap(buckets, other),
    ensures
        one == other,
{
    let gap = choose|gap: u64| #[trigger]
        is_gap(buckets, gap) && is_last_before(buckets, gap, one.0) && is_first_after(
            buckets,
            gap,
            one.1,
        );
    let again = choose|gap: u64| #[trigger]
        is_gap(buckets, gap) && is_last_before(buckets, gap, other.0) && is_first_after(
            buckets,
            gap,
            other.1,
        );
    assert(gap == again) by {
        if gap < again {
            assert(buckets.contains_key(again));
        }
        if again < gap {
            assert(buckets.contains_key(gap));
        }
    }
    lemma_edge_unique(buckets, gap, one.0, other.0, true);
    lemma_edge_unique(buckets, gap, one.1, other.1, false);
}

/// The gap has one trade time on each of its sides.
proof fn lemma_edge_unique(
    buckets: Map<u64, Bucket>,
    gap: u64,
    one: Option<u64>,
    other: Option<u64>,
    before: bool,
)
    requires
        before ==> is_last_before(buckets, gap, one) && is_last_before(buckets, gap, other),
        !before ==> is_first_after(buckets, gap, one) && is_first_after(buckets, gap, other),
    ensures
        one == other,
{
    if one is Some {
        let time = one->Some_0;
        let at = choose|key: u64|
            {
                &&& #[trigger] buckets.contains_key(key)
                &&& if before {
                    key < gap && buckets[key].footprint.is_last_trade(time) && is_nearest_before(
                        buckets,
                        gap,
                        key,
                    )
                } else {
                    gap < key && buckets[key].footprint.is_first_trade(time) && is_nearest_after(
                        buckets,
                        gap,
                        key,
                    )
                }
            };
        lemma_trade_times_unique(buckets[at].footprint, time, time);
        if other is Some {
            lemma_trade_times_unique(buckets[at].footprint, time, other->Some_0);
        }
    }
    if other is Some {
        let time = other->Some_0;
        let at = choose|key: u64|
            {
                &&& #[trigger] buckets.contains_key(key)
                &&& if before {
                    key < gap && buckets[key].footprint.is_last_trade(time) && is_nearest_before(
                        buckets,
                        gap,
                        key,
                    )
                } else {
                    gap < key && buckets[key].footprint.is_first_trade(time) && is_nearest_after(
                        buckets,
                        gap,
                        key,
                    )
                }
            };
        lemma_trade_times_unique(buckets[at].footprint, time, time);
        if one is Some {
            lemma_trade_times_unique(buckets[at].footprint, time, one->Some_0);
        }
    }
}

/// A series has one range to fetch.
pub proof fn lemma_fetch_range_unique(
    buckets: Map<u64, Bucket>,
    visible_earliest: u64,
    visible_latest: u64,
    one: Option<(u64, u64)>,
    other: Option<(u64, u64)>,
)
    requires
        is_fetch_range(buckets, visible_earliest, visible_latest, one),
        is_fetch_range(buckets, visible_earliest, visible_latest, other),
    ensures
        one == other,
{
    let (edges, data) = choose|edges: (Option<u64>, Option<u64>), data: (u64, u64)|
        {
            &&& #[trigger] is_trade_gap(buckets, edges)
            &&& #[trigger] is_data_range(buckets.dom(), data)
            &&& one == fetch_window(edges, data.0, data.1, visible_earliest, visible_latest)
        };
    let (edges2, data2) = choose|edges: (Option<u64>, Option<u64>), data: (u64, u64)|
        {
            &&& #[trigger] is_trade_gap(buckets, edges)
            &&& #[trigger] is_data_range(buckets.dom(), data)
            &&& other == fetch_window(edges, data.0, data.1, visible_earliest, visible_latest)
        };
    lemma_trade_gap_unique(buckets, edges, edges2);
    assert(data.0 == data2.0 && data.1 == data2.1);
}

} // verus!
