//! What a batch of trades does to the buckets of a candle series.
//!
//! Each trade belongs to the bucket that starts at its time rounded down to
//! a multiple of the interval. A bucket takes the trades that belong to it
//! in the order of the batch.

use crate::chart::kline::Bucket;
use crate::chart::kline::Footprint;
use crate::market::bucket_start;
use crate::market::Kline;
use crate::market::Trade;
use crate::price::PriceStep;
use vstd::prelude::*;

verus! {

/// `footprint` after it has taken, in their order, the trades of `trades`
/// that belong to the bucket that starts at `key`.
pub open spec fn routed(
    footprint: Footprint,
    trades: Seq<Trade>,
    key: u64,
    ms: u64,
    step: PriceStep,
) -> Footprint
    decreases trades.len(),
{
    if trades.len() == 0 {
        footprint
    } else {
        let before = routed(footprint, trades.drop_last(), key, ms, step);
        if bucket_start(trades.last().time, ms) == key {
            before.with_trade(trades.last(), step)
        } else {
            before
        }
    }
}

/// A trade of `trades` belongs to the bucket that starts at `key`.
pub open spec fn touches(trades: Seq<Trade>, key: u64, ms: u64) -> bool {
    exists|i: int| 0 <= i < trades.len() && bucket_start((#[trigger] trades[i]).time, ms) == key
}

/// The candle of a bucket that a trade opens: it starts at `key` and has
/// the price of the trade as its four prices, and no volume.
pub open spec fn opening_kline(key: u64, trade: Trade) -> Kline {
    Kline {
        time: key,
        open: trade.price,
        high: trade.price,
        low: trade.price,
        close: trade.price,
        volume: (0, 0),
    }
}

/// `kline` is the candle that the first trade of `trades` that belongs to
/// the bucket at `key` opens.
pub open spec fn seeds(trades: Seq<Trade>, key: u64, ms: u64, kline: Kline) -> bool {
    exists|i: int|
        0 <= i < trades.len() && bucket_start((#[trigger] trades[i]).time, ms) == key && !touches(
            trades.take(i),
            key,
            ms,
        ) && kline == opening_kline(key, trades[i])
}

/// `after` is the bucket at `key` once the batch `trades` has been taken:
/// `before` is the bucket as it was, or nothing where the batch opened it.
/// The candle of a bucket that was there stays. The footprint takes the
/// trades that belong to the bucket; where there is one, the point of
/// control is calculated anew.
pub open spec fn bucket_fed(
    before: Option<Bucket>,
    after: Bucket,
    trades: Seq<Trade>,
    key: u64,
    ms: u64,
    step: PriceStep,
) -> bool {
    let start = match before {
        Some(bucket) => bucket.footprint,
        None => Footprint::empty(),
    };
    let fed = routed(start, trades, key, ms, step);
    &&& match before {
        Some(bucket) => after.kline == bucket.kline,
        None => seeds(trades, key, ms, after.kline),
    }
    &&& if touches(trades, key, ms) {
        fed.recalculated(after.footprint)
    } else {
        after.footprint == fed
    }
}

/// The bucket of `buckets` at `key`, if there is one.
pub open spec fn bucket_at(buckets: Map<u64, Bucket>, key: u64) -> Option<Bucket> {
    if buckets.contains_key(key) {
        Some(buckets[key])
    } else {
        None
    }
}

/// `after` holds the buckets of `before` once the batch `trades` has been
/// taken. With `create`, a trade that belongs to no bucket opens one;
/// without, it is dropped.
pub open spec fn trades_inserted(
    before: Map<u64, Bucket>,
    after: Map<u64, Bucket>,
    trades: Seq<Trade>,
    ms: u64,
    step: PriceStep,
    create: bool,
) -> bool {
    &&& forall|key: u64| #[trigger]
        after.contains_key(key) <==> before.contains_key(key) || (create && touches(
            trades,
            key,
            ms,
        ))
    &&& forall|key: u64| #[trigger]
        after.contains_key(key) ==> bucket_fed(
            bucket_at(before, key),
            after[key],
            trades,
            key,
            ms,
            step,
        )
}

/// Every trade time that `footprint` holds lies in the interval of width
/// `ms` that starts at `key`.
pub open spec fn times_within(footprint: Footprint, key: u64, ms: u64) -> bool {
    forall|price: i64| #[trigger]
        footprint.bins.contains_key(price) ==> {
            &&& key <= footprint.bins[price].first_time < key + ms
            &&& key <= footprint.bins[price].last_time < key + ms
        }
}

/// Every bucket is in its place: it starts at a multiple of the interval,
/// its candle starts where the bucket starts, and its footprint holds no
/// trade from outside its interval.
pub open spec fn buckets_in_place(buckets: Map<u64, Bucket>, ms: u64) -> bool {
    forall|key: u64| #[trigger]
        buckets.contains_key(key) ==> {
            &&& key % ms == 0
            &&& buckets[key].kline.time == key
            &&& times_within(buckets[key].footprint, key, ms)
        }
}

/// The bucket of a time starts at a multiple of the interval, not after the
/// time and less than an interval before it.
pub proof fn lemma_bucket_start(time: u64, ms: u64)
    requires
        ms > 0,
    ensures
        bucket_start(time, ms) % ms == 0,
        bucket_start(time, ms) <= time < bucket_start(time, ms) + ms,
{
    vstd::arithmetic::div_mod::lemma_fundamental_div_mod(time as int, ms as int);
    vstd::arithmetic::div_mod::lemma_mod_bound(time as int, ms as int);
    vstd::arithmetic::div_mod::lemma_mod_multiples_basic((time as int) / (ms as int), ms as int);
    assert((ms as int) * ((time as int) / (ms as int)) == ((time as int) / (ms as int)) * (
    ms as int)) by (nonlinear_arith);
}

/// One more trade at the end of a batch goes into the bucket it belongs to
/// and leaves the others as they are.
pub proof fn lemma_routed_push(
    footprint: Footprint,
    trades: Seq<Trade>,
    trade: Trade,
    key: u64,
    ms: u64,
    step: PriceStep,
)
    ensures
        routed(footprint, trades.push(trade), key, ms, step) == (if bucket_start(trade.time, ms)
            == key {
            routed(footprint, trades, key, ms, step).with_trade(trade, step)
        } else {
            routed(footprint, trades, key, ms, step)
        }),
{
    assert(trades.push(trade).drop_last() =~= trades);
    assert(trades.push(trade).last() == trade);
}

/// A batch with one more trade touches the buckets that the batch touched
/// and the bucket of that trade.
pub proof fn lemma_touches_push(trades: Seq<Trade>, trade: Trade, key: u64, ms: u64)
    ensures
        touches(trades.push(trade), key, ms) <==> touches(trades, key, ms) || bucket_start(
            trade.time,
            ms,
        ) == key,
{
    let more = trades.push(trade);
    if touches(trades, key, ms) {
        let i = choose|i: int|
            0 <= i < trades.len() && bucket_start((#[trigger] trades[i]).time, ms) == key;
        assert(more[i] == trades[i]);
    }
    if bucket_start(trade.time, ms) == key {
        assert(more[trades.len() as int] == trade);
    }
    if touches(more, key, ms) {
        let i = choose|i: int|
            0 <= i < more.len() && bucket_start((#[trigger] more[i]).time, ms) == key;
        if i < trades.len() {
            assert(more[i] == trades[i]);
        }
    }
}

/// The candle that a batch opens is the candle that the batch with one more
/// trade opens; and a trade that is the first of its bucket opens the candle
/// of that bucket.
pub proof fn lemma_seeds_push(trades: Seq<Trade>, trade: Trade, key: u64, ms: u64, kline: Kline)
    ensures
        seeds(trades, key, ms, kline) ==> seeds(trades.push(trade), key, ms, kline),
        !touches(trades, key, ms) && bucket_start(trade.time, ms) == key ==> seeds(
            trades.push(trade),
            key,
            ms,
            opening_kline(key, trade),
        ),
{
    let more = trades.push(trade);
    if seeds(trades, key, ms, kline) {
        let i = choose|i: int|
            0 <= i < trades.len() && bucket_start((#[trigger] trades[i]).time, ms) == key
                && !touches(trades.take(i), key, ms) && kline == opening_kline(key, trades[i]);
        assert(more[i] == trades[i]);
        assert(more.take(i) =~= trades.take(i));
    }
    if !touches(trades, key, ms) && bucket_start(trade.time, ms) == key {
        let i = trades.len() as int;
        assert(more[i] == trade);
        assert(more.take(i) =~= trades);
    }
}

/// A batch leaves the footprint of a bucket that it does not touch as it is.
pub proof fn lemma_routed_untouched(
    footprint: Footprint,
    trades: Seq<Trade>,
    key: u64,
    ms: u64,
    step: PriceStep,
)
    requires
        !touches(trades, key, ms),
    ensures
        routed(footprint, trades, key, ms, step) == footprint,
    decreases trades.len(),
{
    if trades.len() > 0 {
        let rest = trades.drop_last();
        assert(trades[trades.len() - 1] == trades.last());
        assert forall|i: int| 0 <= i < rest.len() implies bucket_start(
            (#[trigger] rest[i]).time,
            ms,
        ) != key by {
            assert(rest[i] == trades[i]);
        }
        lemma_routed_untouched(footprint, rest, key, ms, step);
    }
}

/// A batch changes the bins of a footprint and not its point of control,
/// and a bucket that it touches has bins afterwards.
pub proof fn lemma_routed_bins(
    footprint: Footprint,
    trades: Seq<Trade>,
    key: u64,
    ms: u64,
    step: PriceStep,
)
    ensures
        routed(footprint, trades, key, ms, step).poc == footprint.poc,
        touches(trades, key, ms) ==> routed(footprint, trades, key, ms, step).has_trades(),
        footprint.has_trades() ==> routed(footprint, trades, key, ms, step).has_trades(),
    decreases trades.len(),
{
    if trades.len() > 0 {
        let rest = trades.drop_last();
        let last = trades.last();
        lemma_routed_bins(footprint, rest, key, ms, step);
        assert(rest.push(last) =~= trades);
        lemma_touches_push(rest, last, key, ms);
        let before = routed(footprint, rest, key, ms, step);
        if bucket_start(last.time, ms) == key {
            let price = last.price.rounded(step).units;
            assert(before.with_trade(last, step).bins.contains_key(price));
        } else if before.has_trades() {
        }
    }
}

/// `now` holds the buckets of `start` once the trades of `trades` have gone
/// into them, before any point of control is calculated anew.
pub open spec fn batch_routed(
    start: Map<u64, Bucket>,
    now: Map<u64, Bucket>,
    trades: Seq<Trade>,
    ms: u64,
    step: PriceStep,
    create: bool,
) -> bool {
    &&& forall|key: u64| #[trigger]
        now.contains_key(key) <==> start.contains_key(key) || (create && touches(trades, key, ms))
    &&& forall|key: u64| #[trigger]
        now.contains_key(key) ==> match bucket_at(start, key) {
            Some(bucket) => now[key].kline == bucket.kline && now[key].footprint == routed(
                bucket.footprint,
                trades,
                key,
                ms,
                step,
            ),
            None => seeds(trades, key, ms, now[key].kline) && now[key].footprint == routed(
                Footprint::empty(),
                trades,
                key,
                ms,
                step,
            ),
        }
}

/// `now` after one trade has gone into the bucket it belongs to.
pub open spec fn with_routed_trade(
    now: Map<u64, Bucket>,
    trade: Trade,
    ms: u64,
    step: PriceStep,
    create: bool,
) -> Map<u64, Bucket> {
    let key = bucket_start(trade.time, ms);
    if now.contains_key(key) {
        now.insert(key, now[key].with_trade(trade, step))
    } else if create {
        now.insert(
            key,
            Bucket {
                kline: opening_kline(key, trade),
                footprint: Footprint::empty().with_trade(trade, step),
            },
        )
    } else {
        now
    }
}

/// To route a batch trade by trade is to route the batch.
pub proof fn lemma_batch_routed_step(
    start: Map<u64, Bucket>,
    now: Map<u64, Bucket>,
    trades: Seq<Trade>,
    trade: Trade,
    ms: u64,
    step: PriceStep,
    create: bool,
)
    requires
        batch_routed(start, now, trades, ms, step, create),
    ensures
        batch_routed(
            start,
            with_routed_trade(now, trade, ms, step, create),
            trades.push(trade),
            ms,
            step,
            create,
        ),
{
    let next = with_routed_trade(now, trade, ms, step, create);
    let more = trades.push(trade);
    let at = bucket_start(trade.time, ms);
    assert forall|key: u64| #[trigger]
        next.contains_key(key) <==> start.contains_key(key) || (create && touches(
            more,
            key,
            ms,
        )) by {
        lemma_touches_push(trades, trade, key, ms);
        assert(now.contains_key(key) <==> start.contains_key(key) || (create && touches(
            trades,
            key,
            ms,
        )));
    }
    assert forall|key: u64| #[trigger] next.contains_key(key) implies match bucket_at(start, key) {
        Some(bucket) => next[key].kline == bucket.kline && next[key].footprint == routed(
            bucket.footprint,
            more,
            key,
            ms,
            step,
        ),
        None => seeds(more, key, ms, next[key].kline) && next[key].footprint == routed(
            Footprint::empty(),
            more,
            key,
            ms,
            step,
        ),
    } by {
        lemma_touches_push(trades, trade, key, ms);
        assert(now.contains_key(key) <==> start.contains_key(key) || (create && touches(
            trades,
            key,
            ms,
        )));
        match bucket_at(start, key) {
            Some(bucket) => {
                assert(now.contains_key(key));
                lemma_routed_push(bucket.footprint, trades, trade, key, ms, step);
            },
            None => {
                lemma_routed_push(Footprint::empty(), trades, trade, key, ms, step);
                if now.contains_key(key) {
                    lemma_seeds_push(trades, trade, key, ms, now[key].kline);
                } else {
                    lemma_routed_untouched(Footprint::empty(), trades, key, ms, step);
                    lemma_seeds_push(trades, trade, key, ms, opening_kline(key, trade));
                }
            },
        }
    }
}

/// Once a batch is routed, and the point of control of each bucket that it
/// touched is calculated anew, the batch is inserted.
pub proof fn lemma_batch_inserted(
    start: Map<u64, Bucket>,
    fed: Map<u64, Bucket>,
    after: Map<u64, Bucket>,
    trades: Seq<Trade>,
    ms: u64,
    step: PriceStep,
    create: bool,
)
    requires
        batch_routed(start, fed, trades, ms, step, create),
        after.dom() == fed.dom(),
        forall|key: u64| #[trigger]
            fed.contains_key(key) ==> {
                &&& after[key].kline == fed[key].kline
                &&& if touches(trades, key, ms) {
                    fed[key].footprint.recalculated(after[key].footprint)
                } else {
                    after[key].footprint == fed[key].footprint
                }
            },
    ensures
        trades_inserted(start, after, trades, ms, step, create),
{
    assert forall|key: u64| #[trigger]
        after.contains_key(key) <==> start.contains_key(key) || (create && touches(
            trades,
            key,
            ms,
        )) by {
        assert(fed.contains_key(key) <==> start.contains_key(key) || (create && touches(
            trades,
            key,
            ms,
        )));
    }
    assert forall|key: u64| #[trigger] after.contains_key(key) implies bucket_fed(
        bucket_at(start, key),
        after[key],
        trades,
        key,
        ms,
        step,
    ) by {
        assert(fed.contains_key(key));
    }
}

/// Two series without trades in any footprint hold the same bins, in the
/// buckets that both have, once each has taken the same batch at the same
/// price step, whether or not the batch could open buckets. So a series
/// whose price step was changed and whose trades were taken anew holds the
/// bins of a series that was built at that price step from the start.
pub proof fn lemma_replay_matches_fresh(
    cleared: Map<u64, Bucket>,
    replayed: Map<u64, Bucket>,
    fresh: Map<u64, Bucket>,
    built: Map<u64, Bucket>,
    trades: Seq<Trade>,
    ms: u64,
    step: PriceStep,
    replay_creates: bool,
    build_creates: bool,
)
    requires
        forall|key: u64| #[trigger]
            cleared.contains_key(key) ==> cleared[key].footprint == Footprint::empty(),
        forall|key: u64| #[trigger]
            fresh.contains_key(key) ==> fresh[key].footprint == Footprint::empty(),
        trades_inserted(cleared, replayed, trades, ms, step, replay_creates),
        trades_inserted(fresh, built, trades, ms, step, build_creates),
    ensures
        forall|key: u64|
            #![trigger replayed[key]]
            #![trigger built[key]]
            replayed.contains_key(key) && built.contains_key(key) ==> replayed[key].footprint.bins
                == built[key].footprint.bins,
{
    assert forall|key: u64|
        #![trigger replayed[key]]
        #![trigger built[key]]
        replayed.contains_key(key) && built.contains_key(key) implies replayed[key].footprint.bins
        == built[key].footprint.bins by {
        assert(bucket_fed(bucket_at(cleared, key), replayed[key], trades, key, ms, step));
        assert(bucket_fed(bucket_at(fresh, key), built[key], trades, key, ms, step));
    }
}

/// A batch opens buckets only at multiples of the interval.
pub proof fn lemma_inserted_keys_aligned(
    before: Map<u64, Bucket>,
    after: Map<u64, Bucket>,
    trades: Seq<Trade>,
    ms: u64,
    step: PriceStep,
    create: bool,
)
    requires
        ms > 0,
        trades_inserted(before, after, trades, ms, step, create),
        forall|key: u64| #[trigger] before.contains_key(key) ==> key % ms == 0,
    ensures
        forall|key: u64| #[trigger] after.contains_key(key) ==> key % ms == 0,
{
    assert forall|key: u64| #[trigger] after.contains_key(key) implies key % ms == 0 by {
        if !before.contains_key(key) {
            let i = choose|i: int|
                0 <= i < trades.len() && bucket_start((#[trigger] trades[i]).time, ms) == key;
            lemma_bucket_start(trades[i].time, ms);
        }
    }
}

/// A footprint that holds trades of its own interval alone still does so
/// once it has taken the trades of a batch that belong to it.
pub proof fn lemma_routed_times_within(
    footprint: Footprint,
    trades: Seq<Trade>,
    key: u64,
    ms: u64,
    step: PriceStep,
)
    requires
        ms > 0,
        times_within(footprint, key, ms),
    ensures
        times_within(routed(footprint, trades, key, ms, step), key, ms),
    decreases trades.len(),
{
    if trades.len() > 0 {
        lemma_routed_times_within(footprint, trades.drop_last(), key, ms, step);
        lemma_bucket_start(trades.last().time, ms);
    }
}

/// A batch leaves every bucket in its place.
pub proof fn lemma_inserted_in_place(
    before: Map<u64, Bucket>,
    after: Map<u64, Bucket>,
    trades: Seq<Trade>,
    ms: u64,
    step: PriceStep,
    create: bool,
)
    requires
        ms > 0,
        trades_inserted(before, after, trades, ms, step, create),
        buckets_in_place(before, ms),
    ensures
        buckets_in_place(after, ms),
{
    assert forall|key: u64| #[trigger] after.contains_key(key) implies {
        &&& key % ms == 0
        &&& after[key].kline.time == key
        &&& times_within(after[key].footprint, key, ms)
    } by {
        assert(bucket_fed(bucket_at(before, key), after[key], trades, key, ms, step));
        let start = match bucket_at(before, key) {
            Some(bucket) => bucket.footprint,
            None => Footprint::empty(),
        };
        lemma_routed_times_within(start, trades, key, ms, step);
        if !before.contains_key(key) {
            let i = choose|i: int|
                0 <= i < trades.len() && bucket_start((#[trigger] trades[i]).time, ms) == key;
            lemma_bucket_start(trades[i].time, ms);
        }
    }
}

} // verus!
