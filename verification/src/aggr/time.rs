//! The time series: buckets keyed by the time at which they start.

use crate::aggr::gap::fetch_range;
use crate::aggr::gap::is_data_range;
use crate::aggr::gap::is_fetch_range;
use crate::aggr::gap::is_first_after;
use crate::aggr::gap::is_gap;
use crate::aggr::gap::is_last_before;
use crate::aggr::gap::is_nearest_after;
use crate::aggr::gap::is_nearest_before;
use crate::aggr::gap::is_trade_gap;
use crate::aggr::gap::no_gap;
use crate::aggr::npoc::bucket_settled;
use crate::aggr::npoc::covers;
use crate::aggr::npoc::is_status_of;
use crate::aggr::npoc::klines_aligned;
use crate::aggr::npoc::lemma_settled_in_place;
use crate::aggr::npoc::lemma_status_by_klines;
use crate::aggr::npoc::lemma_with_klines_in_place;
use crate::aggr::npoc::lemma_with_klines_keys;
use crate::aggr::npoc::lemma_with_klines_push;
use crate::aggr::npoc::statuses_settled;
use crate::aggr::npoc::with_kline;
use crate::aggr::npoc::with_klines;
use crate::aggr::ordered::is_greatest_upto;
use crate::aggr::ordered::is_least_from;
use crate::aggr::ordered::key_after;
use crate::aggr::ordered::key_at_or_after;
use crate::aggr::ordered::key_at_or_before;
use crate::aggr::ordered::key_before;
use crate::aggr::routing::batch_routed;
use crate::aggr::routing::bucket_at;
use crate::aggr::routing::bucket_fed;
use crate::aggr::routing::buckets_in_place;
use crate::aggr::routing::lemma_batch_inserted;
use crate::aggr::routing::lemma_batch_routed_step;
use crate::aggr::routing::lemma_inserted_in_place;
use crate::aggr::routing::lemma_inserted_keys_aligned;
use crate::aggr::routing::lemma_routed_bins;
use crate::aggr::routing::lemma_touches_push;
use crate::aggr::routing::touches;
use crate::aggr::routing::trades_inserted;
use crate::aggr::routing::with_routed_trade;
use crate::chart::kline::Bucket;
use crate::chart::kline::ClusterKind;
use crate::chart::kline::Footprint;
use crate::chart::kline::KlineDataPoint;
use crate::chart::kline::KlineTrades;
use crate::chart::kline::NPoc;
use crate::market::bucket_start;
use crate::market::bucket_time;
use crate::market::Kline;
use crate::market::Timeframe;
use crate::market::Trade;
use crate::price::Price;
use crate::price::PriceStep;
use std::collections::BTreeMap;
use vstd::prelude::*;

verus! {

/// What a bucket of a time series can do, whatever it aggregates.
pub trait DataPoint: Sized {
    /// This bucket is `before` after `trade` has gone into it at price step
    /// `step`.
    spec fn traded(&self, before: &Self, trade: Trade, step: PriceStep) -> bool;

    /// This bucket is `before` after all that came from trades has been
    /// dropped.
    spec fn cleared(&self, before: &Self) -> bool;

    /// `time` is the earliest time of a trade in this bucket, or nothing
    /// where the bucket has no trades.
    spec fn is_first_trade_time(&self, time: Option<u64>) -> bool;

    /// `time` is the latest time of a trade in this bucket, or nothing where
    /// the bucket has no trades.
    spec fn is_last_trade_time(&self, time: Option<u64>) -> bool;

    /// The price that stands for the bucket where a base price is wanted.
    spec fn closing_price(&self) -> Price;

    /// The candle of the bucket, if it has one.
    spec fn candle(&self) -> Option<Kline>;

    /// The highest value of the bucket.
    spec fn high_price(&self) -> Price;

    /// The lowest value of the bucket.
    spec fn low_price(&self) -> Price;

    /// Puts a trade into the bucket, in the bin nearest to its price.
    fn add_trade(&mut self, trade: &Trade, step: PriceStep)
        ensures
            final(self).traded(old(self), *trade, step),
    ;

    /// Drops all that came from trades and keeps the rest.
    fn clear_trades(&mut self)
        ensures
            final(self).cleared(old(self)),
            final(self).candle() == old(self).candle(),
            final(self).is_first_trade_time(None),
            final(self).is_last_trade_time(None),
    ;

    /// The latest time of a trade in the bucket, or nothing where it has no
    /// trades.
    fn last_trade_time(&self) -> (time: Option<u64>)
        ensures
            self.is_last_trade_time(time),
    ;

    /// The earliest time of a trade in the bucket, or nothing where it has no
    /// trades.
    fn first_trade_time(&self) -> (time: Option<u64>)
        ensures
            self.is_first_trade_time(time),
    ;

    /// The price that stands for the bucket where a base price is wanted.
    fn last_price(&self) -> (price: Price)
        ensures
            price == self.closing_price(),
    ;

    /// The candle of the bucket, if it has one.
    fn kline(&self) -> (kline: Option<&Kline>)
        ensures
            match kline {
                Some(k) => self.candle() == Some(*k),
                None => self.candle() is None,
            },
    ;

    /// The highest value of the bucket.
    fn value_high(&self) -> (price: Price)
        ensures
            price == self.high_price(),
    ;

    /// The lowest value of the bucket.
    fn value_low(&self) -> (price: Price)
        ensures
            price == self.low_price(),
    ;
}

/// Buckets in the order of the times at which they start, with the width of
/// a bucket and the price step of its bins.
pub struct TimeSeries<D: DataPoint> {
    /// The buckets, keyed by the time at which each starts, in milliseconds.
    pub datapoints: BTreeMap<u64, D>,
    /// The width of a bucket.
    pub interval: Timeframe,
    /// The width of a price bin.
    pub tick_size: PriceStep,
}

impl<D: DataPoint> TimeSeries<D> {
    /// The starts of the buckets.
    pub open spec fn keys(&self) -> Set<u64> {
        self.datapoints@.dom()
    }

    /// Every bucket starts at a multiple of the interval.
    pub open spec fn aligned(&self) -> bool {
        forall|key: u64| #[trigger]
            self.datapoints@.contains_key(key) ==> key % self.interval.millis() == 0
    }

    /// `key` is the start of the first bucket.
    pub open spec fn is_earliest(&self, key: u64) -> bool {
        is_least_from(self.keys(), 0, key)
    }

    /// `key` is the start of the last bucket.
    pub open spec fn is_latest(&self, key: u64) -> bool {
        is_greatest_upto(self.keys(), u64::MAX, key)
    }

    /// The closing price of the last bucket, or zero where there is none.
    pub fn base_price(&self) -> (price: Price)
        ensures
            self.keys().is_empty() ==> price == (Price { units: 0 }),
            !self.keys().is_empty() ==> exists|key: u64| #[trigger]
                self.is_latest(key) && price == self.datapoints@[key].closing_price(),
    {
        match key_at_or_before(&self.datapoints, u64::MAX) {
            Some(key) => {
                assert(self.is_latest(key));
                match self.datapoints.get(&key) {
                    Some(dp) => dp.last_price(),
                    None => Price { units: 0 },
                }
            },
            None => {
                assert(self.keys() =~= Set::empty());
                Price { units: 0 }
            },
        }
    }

    /// The start of the last bucket, or nothing where there is none.
    pub fn latest_timestamp(&self) -> (time: Option<u64>)
        ensures
            match time {
                Some(key) => self.is_latest(key),
                None => self.keys().is_empty(),
            },
    {
        let time = key_at_or_before(&self.datapoints, u64::MAX);
        if time.is_none() {
            assert(self.keys() =~= Set::empty());
        }
        time
    }

    /// The candle of the last bucket, or nothing where there is no bucket or
    /// the last one has no candle.
    pub fn latest_kline(&self) -> (kline: Option<&Kline>)
        ensures
            self.keys().is_empty() ==> kline is None,
            !self.keys().is_empty() ==> exists|key: u64| #[trigger]
                self.is_latest(key) && match kline {
                    Some(k) => self.datapoints@[key].candle() == Some(*k),
                    None => self.datapoints@[key].candle() is None,
                },
    {
        match key_at_or_before(&self.datapoints, u64::MAX) {
            Some(key) => {
                assert(self.is_latest(key));
                match self.datapoints.get(&key) {
                    Some(dp) => dp.kline(),
                    None => None,
                }
            },
            None => {
                assert(self.keys() =~= Set::empty());
                None
            },
        }
    }

    /// The starts of the first and of the last bucket, or twice zero where
    /// there is no bucket.
    pub fn timerange(&self) -> (range: (u64, u64))
        ensures
            self.keys().is_empty() ==> range == (0u64, 0u64),
            !self.keys().is_empty() ==> self.is_earliest(range.0) && self.is_latest(range.1),
    {
        let earliest = match key_at_or_after(&self.datapoints, 0) {
            Some(key) => key,
            None => 0,
        };
        let latest = match key_at_or_before(&self.datapoints, u64::MAX) {
            Some(key) => key,
            None => 0,
        };
        proof {
            if self.keys().is_empty() {
                assert(!self.keys().contains(earliest));
                assert(!self.keys().contains(latest));
            } else {
                let some = choose|key: u64| self.keys().contains(key);
                assert(self.keys().contains(some));
            }
        }
        (earliest, latest)
    }

    /// The buckets that start after `key`.
    pub open spec fn keys_above(&self, key: u64) -> Set<u64> {
        Set::new(|other: u64| self.keys().contains(other) && key < other)
    }

    /// The bucket that starts at `key` is one of the last `lookback` buckets:
    /// fewer than `lookback` buckets start after it.
    pub open spec fn in_lookback(&self, key: u64, lookback: usize) -> bool {
        self.keys().contains(key) && self.keys_above(key).len() < lookback
    }

    /// The last `lookback` buckets, or all where there are fewer.
    pub open spec fn lookback_keys(&self, lookback: usize) -> Set<u64> {
        Set::new(|key: u64| self.in_lookback(key, lookback))
    }

    /// The greatest high and the least low, in this order, of the last
    /// `lookback` buckets, or of all where there are fewer; twice zero where
    /// there is no bucket or `lookback` is zero.
    pub fn price_scale(&self, lookback: usize) -> (scale: (Price, Price))
        ensures
            self.lookback_keys(lookback).is_empty() ==> scale == (
                Price { units: 0 },
                Price { units: 0 },
            ),
            !self.lookback_keys(lookback).is_empty() ==> {
                &&& self.is_high_over(self.lookback_keys(lookback), scale.0)
                &&& self.is_low_over(self.lookback_keys(lookback), scale.1)
            },
    {
        let ghost recent = self.lookback_keys(lookback);
        if lookback == 0 {
            assert(recent =~= Set::empty());
            return (Price { units: 0 }, Price { units: 0 });
        }
        let last = match key_at_or_before(&self.datapoints, u64::MAX) {
            Some(key) => key,
            None => {
                assert(recent =~= Set::empty());
                return (Price { units: 0 }, Price { units: 0 });
            },
        };
        let (mut high, mut low) = match self.datapoints.get(&last) {
            Some(dp) => (dp.value_high(), dp.value_low()),
            None => {
                return (Price { units: 0 }, Price { units: 0 });
            },
        };
        let ghost mut high_at = last;
        let ghost mut low_at = last;
        let mut key = last;
        let mut count: usize = 1;
        let mut previous = key_before(&self.datapoints, key);
        proof {
            vstd::std_specs::btree::axiom_btree_map_view_finite_dom::<u64, D>(self.datapoints);
            assert(self.keys_above(last) =~= Set::empty());
        }
        while count < lookback && previous.is_some()
            invariant
                1 <= count <= lookback,
                self.keys().finite(),
                self.keys().contains(key),
                self.keys_above(key).finite(),
                self.keys_above(key).len() == count - 1,
                self.keys().contains(high_at) && key <= high_at,
                self.keys().contains(low_at) && key <= low_at,
                self.datapoints@[high_at].high_price() == high,
                self.datapoints@[low_at].low_price() == low,
                forall|other: u64| #[trigger]
                    self.keys().contains(other) && key <= other ==> low.units
                        <= self.datapoints@[other].low_price().units
                        && self.datapoints@[other].high_price().units <= high.units,
                match previous {
                    Some(k) => k < key && is_greatest_upto(self.keys(), (key - 1) as u64, k),
                    None => forall|other: u64| #[trigger]
                        self.keys().contains(other) ==> key <= other,
                },
            decreases lookback - count,
        {
            let k = previous.unwrap();
            proof {
                assert(self.keys_above(k) =~= self.keys_above(key).insert(key));
            }
            match self.datapoints.get(&k) {
                Some(dp) => {
                    let value_high = dp.value_high();
                    let value_low = dp.value_low();
                    if value_high.units > high.units {
                        high = value_high;
                        proof {
                            high_at = k;
                        }
                    }
                    if value_low.units < low.units {
                        low = value_low;
                        proof {
                            low_at = k;
                        }
                    }
                },
                None => {},
            }
            key = k;
            count += 1;
            previous = key_before(&self.datapoints, key);
        }
        proof {
            assert forall|other: u64| #[trigger] self.keys().contains(other) implies (
            self.in_lookback(other, lookback) <==> key <= other) by {
                if key <= other {
                    assert(self.keys_above(other).subset_of(self.keys_above(key)));
                    vstd::set_lib::lemma_len_subset(self.keys_above(other), self.keys_above(key));
                } else {
                    let more = self.keys_above(key).insert(key);
                    assert(more.subset_of(self.keys_above(other)));
                    assert(self.keys_above(other).subset_of(self.keys()));
                    vstd::set_lib::lemma_len_subset(self.keys_above(other), self.keys());
                    vstd::set_lib::lemma_len_subset(more, self.keys_above(other));
                }
            }
            assert(recent.contains(key));
            assert(recent.contains(high_at));
            assert(recent.contains(low_at));
        }
        (high, low)
    }

    /// The buckets that start from `earliest` to `latest`.
    pub open spec fn keys_between(&self, earliest: u64, latest: u64) -> Set<u64> {
        Set::new(|key: u64| self.keys().contains(key) && earliest <= key <= latest)
    }

    /// `price` is the least of the lows of the buckets that start in `keys`.
    pub open spec fn is_low_over(&self, keys: Set<u64>, price: Price) -> bool {
        &&& exists|key: u64| #[trigger]
            keys.contains(key) && self.keys().contains(key) && self.datapoints@[key].low_price()
                == price
        &&& forall|key: u64| #[trigger]
            keys.contains(key) && self.keys().contains(key) ==> price.units
                <= self.datapoints@[key].low_price().units
    }

    /// `price` is the greatest of the highs of the buckets that start in
    /// `keys`.
    pub open spec fn is_high_over(&self, keys: Set<u64>, price: Price) -> bool {
        &&& exists|key: u64| #[trigger]
            keys.contains(key) && self.keys().contains(key) && self.datapoints@[key].high_price()
                == price
        &&& forall|key: u64| #[trigger]
            keys.contains(key) && self.keys().contains(key)
                ==> self.datapoints@[key].high_price().units <= price.units
    }

    /// The least low and the greatest high, in this order, of the buckets
    /// that start from `earliest` to `latest`, both included, or nothing
    /// where no bucket does.
    pub fn min_max_price_in_range_prices(&self, earliest: u64, latest: u64) -> (range: Option<
        (Price, Price),
    >)
        ensures
            match range {
                Some((low, high)) => {
                    &&& self.is_low_over(self.keys_between(earliest, latest), low)
                    &&& self.is_high_over(self.keys_between(earliest, latest), high)
                },
                None => self.keys_between(earliest, latest).is_empty(),
            },
    {
        let ghost span = self.keys_between(earliest, latest);
        let first = match key_at_or_after(&self.datapoints, earliest) {
            Some(key) => key,
            None => {
                assert(span =~= Set::empty());
                return None;
            },
        };
        if first > latest {
            assert(span =~= Set::empty());
            return None;
        }
        let (mut min_price, mut max_price) = match self.datapoints.get(&first) {
            Some(dp) => (dp.value_low(), dp.value_high()),
            None => {
                return None;
            },
        };
        let ghost mut low_at = first;
        let ghost mut high_at = first;
        let mut key = first;
        let mut next = key_after(&self.datapoints, key);
        while next.is_some() && next.unwrap() <= latest
            invariant
                span == self.keys_between(earliest, latest),
                span.contains(key),
                span.contains(low_at),
                span.contains(high_at),
                self.datapoints@[low_at].low_price() == min_price,
                self.datapoints@[high_at].high_price() == max_price,
                forall|other: u64| #[trigger]
                    span.contains(other) && other <= key ==> min_price.units
                        <= self.datapoints@[other].low_price().units
                        && self.datapoints@[other].high_price().units <= max_price.units,
                match next {
                    Some(k) => key < k && is_least_from(self.keys(), (key + 1) as u64, k),
                    None => forall|other: u64| #[trigger]
                        self.keys().contains(other) ==> other <= key,
                },
            decreases
                match next {
                    Some(k) => u64::MAX - k + 1,
                    None => 0,
                },
        {
            let k = next.unwrap();
            assert(span.contains(k));
            match self.datapoints.get(&k) {
                Some(dp) => {
                    let low = dp.value_low();
                    let high = dp.value_high();
                    if low.units < min_price.units {
                        min_price = low;
                        proof {
                            low_at = k;
                        }
                    }
                    if high.units > max_price.units {
                        max_price = high;
                        proof {
                            high_at = k;
                        }
                    }
                },
                None => {},
            }
            key = k;
            next = key_after(&self.datapoints, key);
        }
        Some((min_price, max_price))
    }

    /// `after` is this series with the trades of every bucket dropped.
    pub open spec fn trades_cleared(&self, after: &Self) -> bool {
        &&& after.keys() == self.keys()
        &&& after.interval == self.interval
        &&& after.tick_size == self.tick_size
        &&& forall|key: u64| #[trigger]
            self.keys().contains(key) ==> after.datapoints@[key].cleared(&self.datapoints@[key])
    }

    /// Drops the trades of every bucket.
    pub fn clear_trades(&mut self)
        ensures
            old(self).trades_cleared(final(self)),
            old(self).aligned() ==> final(self).aligned(),
    {
        let mut next = key_at_or_after(&self.datapoints, 0);
        while next.is_some()
            invariant
                self.keys() == old(self).keys(),
                self.interval == old(self).interval,
                self.tick_size == old(self).tick_size,
                match next {
                    Some(k) => self.keys().contains(k),
                    None => true,
                },
                forall|key: u64| #[trigger]
                    self.keys().contains(key) ==> if next is None || key < next->Some_0 {
                        self.datapoints@[key].cleared(&old(self).datapoints@[key])
                    } else {
                        self.datapoints@[key] == old(self).datapoints@[key]
                    },
            decreases
                match next {
                    Some(k) => u64::MAX - k + 1,
                    None => 0,
                },
        {
            let key = next.unwrap();
            let ghost before = self.datapoints@;
            match self.datapoints.remove(&key) {
                Some(mut dp) => {
                    dp.clear_trades();
                    self.datapoints.insert(key, dp);
                },
                None => {},
            }
            assert(self.datapoints@.dom() =~= before.dom());
            next = key_after(&self.datapoints, key);
        }
    }

    /// `time` is one of the times at which a bucket is expected: `earliest`,
    /// and every time before `latest` that lies a multiple of `interval`
    /// after it.
    pub open spec fn is_expected(earliest: u64, latest: u64, interval: u64, time: u64) -> bool {
        &&& earliest <= time < latest
        &&& if interval == 0 {
            time == earliest
        } else {
            (time - earliest) % (interval as int) == 0
        }
    }

    /// A bucket is expected at `time` and there is none.
    pub open spec fn is_missing(
        &self,
        earliest: u64,
        latest: u64,
        interval: u64,
        time: u64,
    ) -> bool {
        Self::is_expected(earliest, latest, interval, time) && !self.keys().contains(time)
    }

    /// `times` lists, from the first to the last, the times at which a bucket
    /// is expected and there is none.
    pub open spec fn lists_missing(
        &self,
        earliest: u64,
        latest: u64,
        interval: u64,
        times: Seq<u64>,
    ) -> bool {
        &&& forall|i: int, j: int| 0 <= i < j < times.len() ==> times[i] < times[j]
        &&& forall|i: int|
            0 <= i < times.len() ==> self.is_missing(
                earliest,
                latest,
                interval,
                #[trigger] times[i],
            )
        &&& forall|time: u64| #[trigger]
            self.is_missing(earliest, latest, interval, time) ==> times.contains(time)
    }

    /// Looks for the buckets that are expected from `earliest` to before
    /// `latest`, one every `interval`, and are not there. Returns their
    /// times from the first to the last, or nothing where none is missing.
    /// With an interval of zero the one expected time is `earliest`. The
    /// walk ends where the next time would not fit in 64 bits.
    pub fn check_kline_integrity(&self, earliest: u64, latest: u64, interval: u64) -> (missing:
        Option<Vec<u64>>)
        ensures
            match missing {
                Some(times) => times@.len() > 0 && self.lists_missing(
                    earliest,
                    latest,
                    interval,
                    times@,
                ),
                None => forall|time: u64|
                    !#[trigger] self.is_missing(earliest, latest, interval, time),
            },
    {
        let mut time = earliest;
        let mut any_missing = false;
        let mut done = false;
        proof {
            if interval > 0 {
                vstd::arithmetic::div_mod::lemma_mod_multiples_basic(0, interval as int);
            }
        }
        while time < latest && !done
            invariant
                earliest <= time,
                interval > 0 ==> (time - earliest) % (interval as int) == 0,
                interval == 0 ==> time == earliest,
                done ==> any_missing || forall|other: u64|
                    !#[trigger] self.is_missing(earliest, latest, interval, other),
                !any_missing ==> forall|other: u64|
                    other < time ==> !#[trigger] self.is_missing(earliest, latest, interval, other),
                any_missing ==> exists|other: u64| #[trigger]
                    self.is_missing(earliest, latest, interval, other),
                any_missing ==> done,
            decreases
                if done || time >= latest {
                    0int
                } else {
                    latest - time
                },
        {
            if !self.datapoints.contains_key(&time) {
                assert(self.is_missing(earliest, latest, interval, time));
                any_missing = true;
                done = true;
            } else if interval == 0 {
                done = true;
            } else {
                proof {
                    lemma_next_expected(earliest, time, interval);
                }
                match time.checked_add(interval) {
                    Some(next) => {
                        time = next;
                    },
                    None => {
                        done = true;
                    },
                }
            }
        }
        if !any_missing {
            return None;
        }
        let mut missing_keys: Vec<u64> = Vec::new();
        let mut time = earliest;
        let mut done = false;
        while time < latest && !done
            invariant
                earliest <= time,
                interval > 0 ==> (time - earliest) % (interval as int) == 0,
                interval == 0 ==> time == earliest,
                forall|i: int, j: int|
                    0 <= i < j < missing_keys@.len() ==> missing_keys@[i] < missing_keys@[j],
                forall|i: int|
                    0 <= i < missing_keys@.len() ==> self.is_missing(
                        earliest,
                        latest,
                        interval,
                        #[trigger] missing_keys@[i],
                    ) && (missing_keys@[i] < time || done),
                forall|other: u64|
                    (other < time || done) && #[trigger] self.is_missing(
                        earliest,
                        latest,
                        interval,
                        other,
                    ) ==> missing_keys@.contains(other),
            decreases
                if done || time >= latest {
                    0int
                } else {
                    latest - time
                },
        {
            if !self.datapoints.contains_key(&time) {
                let ghost before = missing_keys@;
                missing_keys.push(time);
                proof {
                    assert(missing_keys@[before.len() as int] == time);
                    assert forall|other: u64|
                        before.contains(other) implies missing_keys@.contains(other) by {
                        let i = choose|i: int| 0 <= i < before.len() && before[i] == other;
                        assert(missing_keys@[i] == other);
                    }
                }
            }
            if interval == 0 {
                done = true;
            } else {
                proof {
                    lemma_next_expected(earliest, time, interval);
                }
                match time.checked_add(interval) {
                    Some(next) => {
                        time = next;
                    },
                    None => {
                        done = true;
                    },
                }
            }
        }
        proof {
            let witness = choose|other: u64| #[trigger]
                self.is_missing(earliest, latest, interval, other);
            assert(missing_keys@.contains(witness));
        }
        Some(missing_keys)
    }
}

/// With a lookback of at least as many buckets as the series has, the last
/// `lookback` buckets are all the buckets: `price_scale` then gives the
/// greatest high and the least low of the whole series.
pub proof fn lemma_lookback_covers_series<D: DataPoint>(series: &TimeSeries<D>, lookback: usize)
    requires
        lookback >= series.keys().len(),
    ensures
        series.lookback_keys(lookback) == series.keys(),
{
    vstd::std_specs::btree::axiom_btree_map_view_finite_dom::<u64, D>(series.datapoints);
    assert forall|key: u64| series.keys().contains(key) implies series.in_lookback(
        key,
        lookback,
    ) by {
        let rest = series.keys().remove(key);
        assert(series.keys_above(key).subset_of(rest));
        vstd::set_lib::lemma_len_subset(series.keys_above(key), rest);
    }
    assert(series.lookback_keys(lookback) =~= series.keys());
}

/// With a lookback of zero, or in a series without buckets, there are no
/// last buckets: `price_scale` then gives twice zero.
pub proof fn lemma_no_lookback<D: DataPoint>(series: &TimeSeries<D>, lookback: usize)
    requires
        lookback == 0 || series.keys().is_empty(),
    ensures
        series.lookback_keys(lookback).is_empty(),
{
    assert(series.lookback_keys(lookback) =~= Set::empty());
}

/// In a series that has a bucket at every expected time, no list of missing
/// times has an entry: `check_kline_integrity` then returns nothing.
pub proof fn lemma_dense_lists_nothing<D: DataPoint>(
    series: &TimeSeries<D>,
    earliest: u64,
    latest: u64,
    interval: u64,
    times: Seq<u64>,
)
    requires
        forall|time: u64|
            TimeSeries::<D>::is_expected(earliest, latest, interval, time)
                ==> #[trigger] series.keys().contains(time),
        series.lists_missing(earliest, latest, interval, times),
    ensures
        times.len() == 0,
{
    if times.len() > 0 {
        assert(series.is_missing(earliest, latest, interval, times[0]));
    }
}

/// In a series that has a bucket at every expected time but `gone`, the
/// list of missing times is `gone` alone: `check_kline_integrity` then
/// returns exactly that time.
pub proof fn lemma_single_gap<D: DataPoint>(
    series: &TimeSeries<D>,
    earliest: u64,
    latest: u64,
    interval: u64,
    gone: u64,
    times: Seq<u64>,
)
    requires
        TimeSeries::<D>::is_expected(earliest, latest, interval, gone),
        !series.keys().contains(gone),
        forall|time: u64|
            TimeSeries::<D>::is_expected(earliest, latest, interval, time) && time != gone
                ==> #[trigger] series.keys().contains(time),
        series.lists_missing(earliest, latest, interval, times),
    ensures
        times == seq![gone],
{
    assert(series.is_missing(earliest, latest, interval, gone));
    assert(times.contains(gone));
    assert forall|i: int| 0 <= i < times.len() implies #[trigger] times[i] == gone by {
        assert(series.is_missing(earliest, latest, interval, times[i]));
    }
    if times.len() > 1 {
        assert(times[0] < times[1]);
    }
    assert(times =~= seq![gone]);
}

/// After an expected time the next one lies a whole interval later.
pub proof fn lemma_next_expected(earliest: u64, time: u64, interval: u64)
    requires
        interval > 0,
        earliest <= time,
        (time - earliest) % (interval as int) == 0,
    ensures
        (time + interval - earliest) % (interval as int) == 0,
        forall|other: u64|
            time < other < time + interval && earliest <= other ==> #[trigger] ((other - earliest)
                % (interval as int)) != 0,
{
    let i = interval as int;
    let a = time - earliest;
    vstd::arithmetic::div_mod::lemma_fundamental_div_mod(a, i);
    vstd::arithmetic::div_mod::lemma_mod_multiples_basic(a / i + 1, i);
    assert((a / i + 1) * i == a + i) by (nonlinear_arith)
        requires
            a == i * (a / i),
    ;
    assert forall|other: u64| time < other < time + interval && earliest <= other implies #[trigger]
        ((other - earliest) % i) != 0 by {
        let b = other - earliest;
        vstd::arithmetic::div_mod::lemma_fundamental_div_mod(b, i);
        if b % i == 0 {
            assert(false) by (nonlinear_arith)
                requires
                    a == i * (a / i),
                    b == i * (b / i),
                    a < b < a + i,
                    i > 0,
            ;
        }
    }
}

/// Whether `times` holds `time`.
fn holds_time(times: &Vec<u64>, time: u64) -> (held: bool)
    ensures
        held == times@.contains(time),
{
    let mut i: usize = 0;
    while i < times.len()
        invariant
            i <= times.len(),
            forall|j: int| 0 <= j < i ==> times@[j] != time,
        decreases times.len() - i,
    {
        if times[i] == time {
            return true;
        }
        i += 1;
    }
    false
}

/// `now` holds the buckets of `fed` once the point of control of each bucket
/// of `times` has been calculated anew.
spec fn recalculated_upto(fed: Map<u64, Bucket>, now: Map<u64, Bucket>, times: Seq<u64>) -> bool {
    &&& now.dom() == fed.dom()
    &&& forall|key: u64| #[trigger]
        fed.contains_key(key) ==> {
            &&& now[key].kline == fed[key].kline
            &&& if times.contains(key) {
                fed[key].footprint.recalculated(now[key].footprint)
            } else {
                now[key].footprint == fed[key].footprint
            }
        }
}

/// One more point of control calculated anew.
proof fn lemma_recalculated_step(
    fed: Map<u64, Bucket>,
    before: Map<u64, Bucket>,
    after: Map<u64, Bucket>,
    done: Seq<u64>,
    time: u64,
)
    requires
        recalculated_upto(fed, before, done),
        fed.contains_key(time),
        after.dom() == before.dom(),
        after[time].kline == before[time].kline,
        before[time].footprint.recalculated(after[time].footprint),
        forall|key: u64| #[trigger]
            before.contains_key(key) && key != time ==> after[key] == before[key],
    ensures
        recalculated_upto(fed, after, done.push(time)),
{
    let more = done.push(time);
    assert forall|key: u64| #[trigger] fed.contains_key(key) implies {
        &&& after[key].kline == fed[key].kline
        &&& if more.contains(key) {
            fed[key].footprint.recalculated(after[key].footprint)
        } else {
            after[key].footprint == fed[key].footprint
        }
    } by {
        assert(before.contains_key(key));
        if key == time {
            assert(more[done.len() as int] == time);
        } else {
            assert(after[key] == before[key]);
            if done.contains(key) {
                let n = choose|n: int| 0 <= n < done.len() && done[n] == key;
                assert(more[n] == key);
            }
            if more.contains(key) {
                let n = choose|n: int| 0 <= n < more.len() && more[n] == key;
                assert(done[n] == key);
            }
        }
    }
}

/// The times of the buckets that took a trade, after one more trade.
proof fn lemma_updated_times_step(
    times_before: Seq<u64>,
    times: Seq<u64>,
    before: Map<u64, Bucket>,
    after: Map<u64, Bucket>,
    taken: Seq<Trade>,
    trade: Trade,
    ms: u64,
    step: PriceStep,
    create: bool,
)
    requires
        forall|key: u64|
            times_before.contains(key) <==> before.contains_key(key) && touches(taken, key, ms),
        after == with_routed_trade(before, trade, ms, step, create),
        if after.contains_key(bucket_start(trade.time, ms)) && !times_before.contains(
            bucket_start(trade.time, ms),
        ) {
            times == times_before.push(bucket_start(trade.time, ms))
        } else {
            times == times_before
        },
    ensures
        forall|key: u64|
            times.contains(key) <==> after.contains_key(key) && touches(
                taken.push(trade),
                key,
                ms,
            ),
{
    let at = bucket_start(trade.time, ms);
    assert forall|key: u64|
        times.contains(key) <==> after.contains_key(key) && touches(taken.push(trade), key, ms) by {
        lemma_touches_push(taken, trade, key, ms);
        if times_before.contains(key) {
            let n = choose|n: int| 0 <= n < times_before.len() && times_before[n] == key;
            if times != times_before {
                assert(times[n] == key);
            }
        }
        if times != times_before {
            assert(times[times_before.len() as int] == at);
            if times.contains(key) {
                let n = choose|n: int| 0 <= n < times.len() && times[n] == key;
                if n < times_before.len() {
                    assert(times_before[n] == key);
                }
            }
        }
    }
}

impl TimeSeries<KlineDataPoint> {
    /// What the buckets hold, by the time at which each starts.
    pub open spec fn buckets(&self) -> Map<u64, Bucket> {
        Map::new(|key: u64| self.datapoints@.contains_key(key), |key: u64| self.datapoints@[key]@)
    }

    /// Every bucket is in its place: it starts at a multiple of the
    /// interval, its candle starts where the bucket starts, and its
    /// footprint holds no trade from outside its interval. A series made by
    /// `new` from candles at multiples of the interval is so, and every
    /// function that changes a series keeps it so.
    pub open spec fn in_place(&self) -> bool {
        buckets_in_place(self.buckets(), self.interval.millis())
    }

    /// Takes a batch of trades, each into the bucket it belongs to. With
    /// `create`, a trade that belongs to no bucket opens one; without, it is
    /// dropped. Then calculates the point of control of each bucket that
    /// took a trade.
    fn insert_trades(&mut self, buffer: &[Trade], create: bool)
        ensures
            final(self).interval == old(self).interval,
            final(self).tick_size == old(self).tick_size,
            trades_inserted(
                old(self).buckets(),
                final(self).buckets(),
                buffer@,
                old(self).interval.millis(),
                old(self).tick_size,
                create,
            ),
            old(self).aligned() ==> final(self).aligned(),
            old(self).in_place() ==> final(self).in_place(),
    {
        let ms = self.interval.to_milliseconds();
        let step = self.tick_size;
        let ghost start = self.buckets();
        let mut updated_times: Vec<u64> = Vec::new();
        let mut i: usize = 0;
        assert(buffer@.take(0) =~= Seq::<Trade>::empty());
        while i < buffer.len()
            invariant
                i <= buffer.len(),
                ms == self.interval.millis(),
                ms > 0,
                step == self.tick_size,
                self.interval == old(self).interval,
                self.tick_size == old(self).tick_size,
                batch_routed(start, self.buckets(), buffer@.take(i as int), ms, step, create),
                forall|key: u64|
                    updated_times@.contains(key) <==> self.buckets().contains_key(key) && touches(
                        buffer@.take(i as int),
                        key,
                        ms,
                    ),
            decreases buffer.len() - i,
        {
            let trade = &buffer[i];
            let rounded_time = bucket_time(trade.time, ms);
            let ghost before = self.buckets();
            let ghost taken = buffer@.take(i as int);
            let ghost times_before = updated_times@;
            let mut routed_here = true;
            match self.datapoints.remove(&rounded_time) {
                Some(mut dp) => {
                    dp.add_trade(trade, step);
                    self.datapoints.insert(rounded_time, dp);
                },
                None => {
                    if create {
                        let mut dp = KlineDataPoint {
                            kline: Kline {
                                time: rounded_time,
                                open: trade.price,
                                high: trade.price,
                                low: trade.price,
                                close: trade.price,
                                volume: (0, 0),
                            },
                            footprint: KlineTrades::new(),
                        };
                        dp.add_trade(trade, step);
                        self.datapoints.insert(rounded_time, dp);
                    } else {
                        routed_here = false;
                    }
                },
            }
            if routed_here && !holds_time(&updated_times, rounded_time) {
                updated_times.push(rounded_time);
            }
            proof {
                assert(buffer@.take(i + 1) =~= taken.push(*trade));
                assert(self.buckets() =~= with_routed_trade(before, *trade, ms, step, create));
                lemma_batch_routed_step(start, before, taken, *trade, ms, step, create);
                lemma_updated_times_step(
                    times_before,
                    updated_times@,
                    before,
                    self.buckets(),
                    taken,
                    *trade,
                    ms,
                    step,
                    create,
                );
            }
            i += 1;
        }
        assert(buffer@.take(buffer@.len() as int) =~= buffer@);
        let ghost fed = self.buckets();
        assert forall|n: int| 0 <= n < updated_times@.len() implies fed.contains_key(
            #[trigger] updated_times@[n],
        ) by {
            assert(updated_times@.contains(updated_times@[n]));
        }
        let mut j: usize = 0;
        assert(updated_times@.take(0) =~= Seq::<u64>::empty());
        while j < updated_times.len()
            invariant
                j <= updated_times.len(),
                self.interval == old(self).interval,
                self.tick_size == old(self).tick_size,
                recalculated_upto(fed, self.buckets(), updated_times@.take(j as int)),
                forall|n: int|
                    0 <= n < updated_times@.len() ==> fed.contains_key(
                        #[trigger] updated_times@[n],
                    ),
            decreases updated_times.len() - j,
        {
            let time = updated_times[j];
            let ghost before = self.buckets();
            let ghost done = updated_times@.take(j as int);
            assert(updated_times@.take(j + 1) =~= done.push(time));
            assert(before.contains_key(time));
            match self.datapoints.remove(&time) {
                Some(mut data_point) => {
                    data_point.calculate_poc();
                    self.datapoints.insert(time, data_point);
                    proof {
                        let after = self.buckets();
                        assert(after.dom() =~= before.dom());
                        assert(forall|key: u64| #[trigger]
                            before.contains_key(key) && key != time ==> after[key] == before[key]);
                        lemma_recalculated_step(fed, before, after, done, time);
                    }
                },
                None => {},
            }
            j += 1;
        }
        proof {
            assert(updated_times@.take(updated_times@.len() as int) =~= updated_times@);
            let after = self.buckets();
            assert forall|key: u64| #[trigger] fed.contains_key(key) implies {
                &&& after[key].kline == fed[key].kline
                &&& if touches(buffer@, key, ms) {
                    fed[key].footprint.recalculated(after[key].footprint)
                } else {
                    after[key].footprint == fed[key].footprint
                }
            } by {
                assert(after.contains_key(key));
            }
            lemma_batch_inserted(start, fed, after, buffer@, ms, step, create);
            if old(self).in_place() {
                lemma_inserted_in_place(start, after, buffer@, ms, step, create);
            }
            if old(self).aligned() {
                assert forall|key: u64| #[trigger] start.contains_key(key) implies key % ms
                    == 0 by {
                    assert(old(self).datapoints@.contains_key(key));
                }
                lemma_inserted_keys_aligned(start, after, buffer@, ms, step, create);
                assert forall|key: u64| #[trigger]
                    self.datapoints@.contains_key(key) implies key % self.interval.millis()
                    == 0 by {
                    assert(after.contains_key(key));
                }
            }
        }
    }

    /// Takes a batch of trades, each into the bucket that starts at its time
    /// rounded down to the interval. A trade that belongs to no bucket opens
    /// one, with the price of the trade as its four prices and no volume. The
    /// point of control is calculated anew for each bucket that took a trade,
    /// and only for those.
    pub fn insert_trades_or_create_bucket(&mut self, buffer: &[Trade])
        ensures
            final(self).interval == old(self).interval,
            final(self).tick_size == old(self).tick_size,
            trades_inserted(
                old(self).buckets(),
                final(self).buckets(),
                buffer@,
                old(self).interval.millis(),
                old(self).tick_size,
                true,
            ),
            old(self).aligned() ==> final(self).aligned(),
            old(self).in_place() ==> final(self).in_place(),
            forall|key: u64|
                touches(buffer@, key, old(self).interval.millis()) ==> {
                    &&& (#[trigger] final(self).buckets()[key]).footprint.poc is Some
                    &&& final(self).buckets()[key].footprint.poc_is_current()
                },
    {
        self.insert_trades(buffer, true);
        proof {
            let ms = old(self).interval.millis();
            let step = old(self).tick_size;
            assert forall|key: u64| touches(buffer@, key, ms) implies {
                &&& (#[trigger] self.buckets()[key]).footprint.poc is Some
                &&& self.buckets()[key].footprint.poc_is_current()
            } by {
                assert(self.buckets().contains_key(key));
                let start = match bucket_at(old(self).buckets(), key) {
                    Some(bucket) => bucket.footprint,
                    None => Footprint::empty(),
                };
                lemma_routed_bins(start, buffer@, key, ms, step);
            }
        }
    }

    /// Takes a batch of trades, each into the bucket that starts at its time
    /// rounded down to the interval. A trade that belongs to no bucket is
    /// dropped: no bucket is opened. The point of control is calculated anew
    /// for each bucket that took a trade.
    pub fn insert_trades_existing_buckets(&mut self, buffer: &[Trade])
        ensures
            final(self).interval == old(self).interval,
            final(self).tick_size == old(self).tick_size,
            trades_inserted(
                old(self).buckets(),
                final(self).buckets(),
                buffer@,
                old(self).interval.millis(),
                old(self).tick_size,
                false,
            ),
            old(self).aligned() ==> final(self).aligned(),
            old(self).in_place() ==> final(self).in_place(),
    {
        self.insert_trades(buffer, false);
    }

    /// The status of a point of control at `price` in the bucket at `key`:
    /// filled at the first later bucket whose candle covers the price, naked
    /// where there is none.
    fn poc_status_at(&self, key: u64, price: Price) -> (status: NPoc)
        ensures
            is_status_of(self.buckets(), key, price, self.tick_size, status),
    {
        let step = self.tick_size;
        let mut next = key_after(&self.datapoints, key);
        while next.is_some()
            invariant
                step == self.tick_size,
                match next {
                    Some(k) => key < k && self.buckets().contains_key(k),
                    None => true,
                },
                forall|other: u64| #[trigger]
                    self.buckets().contains_key(other) && key < other && (next is None || other
                        < next->Some_0) ==> !covers(self.buckets()[other].kline, price, step),
            decreases
                match next {
                    Some(k) => u64::MAX - k + 1,
                    None => 0,
                },
        {
            let next_time = next.unwrap();
            match self.datapoints.get(&next_time) {
                Some(next_dp) => {
                    let next_dp_low = next_dp.kline.low.round_to_side_step(true, step);
                    let next_dp_high = next_dp.kline.high.round_to_side_step(false, step);
                    if next_dp_low.units <= price.units && next_dp_high.units >= price.units {
                        return NPoc::Filled { at: next_time };
                    }
                },
                None => {},
            }
            next = key_after(&self.datapoints, next_time);
        }
        NPoc::Naked
    }

    /// Settles the status of every point of control: filled at the first
    /// later bucket whose candle covers its price, naked where no later
    /// bucket does. The candle's low is rounded down to the price step and
    /// its high up. Candles, bins, and the price and volume of every point
    /// of control stay as they are.
    pub fn update_poc_status(&mut self)
        ensures
            final(self).interval == old(self).interval,
            final(self).tick_size == old(self).tick_size,
            statuses_settled(old(self).buckets(), final(self).buckets(), old(self).tick_size),
            old(self).aligned() ==> final(self).aligned(),
            old(self).in_place() ==> final(self).in_place(),
    {
        let step = self.tick_size;
        let ghost start = self.buckets();
        let mut next = key_at_or_after(&self.datapoints, 0);
        while next.is_some()
            invariant
                step == self.tick_size,
                self.interval == old(self).interval,
                self.tick_size == old(self).tick_size,
                start == old(self).buckets(),
                self.buckets().dom() == start.dom(),
                match next {
                    Some(k) => start.contains_key(k),
                    None => true,
                },
                forall|key: u64| #[trigger]
                    start.contains_key(key) ==> if next is None || key < next->Some_0 {
                        bucket_settled(start, key, self.buckets()[key], step)
                    } else {
                        self.buckets()[key] == start[key]
                    },
            decreases
                match next {
                    Some(k) => u64::MAX - k + 1,
                    None => 0,
                },
        {
            let current_time = next.unwrap();
            let ghost before = self.buckets();
            assert(before.contains_key(current_time));
            let poc_price = match self.datapoints.get(&current_time) {
                Some(dp) => dp.poc_price(),
                None => None,
            };
            match poc_price {
                Some(price) => {
                    let npoc = self.poc_status_at(current_time, price);
                    proof {
                        assert forall|at: u64| #[trigger]
                            before.contains_key(at) implies before[at].kline
                            == start[at].kline by {
                            assert(start.contains_key(at));
                        }
                        lemma_status_by_klines(before, start, current_time, price, step, npoc);
                    }
                    match self.datapoints.remove(&current_time) {
                        Some(mut data_point) => {
                            data_point.set_poc_status(npoc);
                            self.datapoints.insert(current_time, data_point);
                        },
                        None => {},
                    }
                },
                None => {},
            }
            proof {
                let after = self.buckets();
                assert(after.dom() =~= before.dom());
                assert forall|key: u64| #[trigger]
                    before.contains_key(key) && key != current_time implies after[key]
                    == before[key] by {}
            }
            next = key_after(&self.datapoints, current_time);
        }
        proof {
            if old(self).aligned() {
                assert forall|key: u64| #[trigger]
                    self.datapoints@.contains_key(key) implies key % self.interval.millis()
                    == 0 by {
                    assert(self.buckets().contains_key(key));
                    assert(start.contains_key(key));
                    assert(old(self).datapoints@.contains_key(key));
                }
            }
            if old(self).in_place() {
                lemma_settled_in_place(start, self.buckets(), step, self.interval.millis());
            }
        }
    }

    /// Puts candles in, in their order: a candle replaces the candle of the
    /// bucket that starts at its time, whose footprint stays, or opens that
    /// bucket with an empty footprint. Then settles the status of every
    /// point of control.
    pub fn insert_klines(&mut self, klines: &[Kline])
        ensures
            final(self).interval == old(self).interval,
            final(self).tick_size == old(self).tick_size,
            statuses_settled(
                with_klines(old(self).buckets(), klines@),
                final(self).buckets(),
                old(self).tick_size,
            ),
            old(self).aligned() && klines_aligned(klines@, old(self).interval.millis())
                ==> final(self).aligned(),
            old(self).in_place() && klines_aligned(klines@, old(self).interval.millis())
                ==> final(self).in_place(),
    {
        let ghost start = self.buckets();
        let mut i: usize = 0;
        assert(klines@.take(0) =~= Seq::<Kline>::empty());
        while i < klines.len()
            invariant
                i <= klines.len(),
                self.interval == old(self).interval,
                self.tick_size == old(self).tick_size,
                self.buckets() == with_klines(start, klines@.take(i as int)),
            decreases klines.len() - i,
        {
            let kline = &klines[i];
            let ghost before = self.buckets();
            match self.datapoints.remove(&kline.time) {
                Some(mut entry) => {
                    entry.kline = *kline;
                    self.datapoints.insert(kline.time, entry);
                },
                None => {
                    self.datapoints.insert(
                        kline.time,
                        KlineDataPoint { kline: *kline, footprint: KlineTrades::new() },
                    );
                },
            }
            proof {
                assert(klines@.take(i + 1) =~= klines@.take(i as int).push(*kline));
                lemma_with_klines_push(start, klines@.take(i as int), *kline);
                assert(self.buckets() =~= with_kline(before, *kline));
            }
            i += 1;
        }
        assert(klines@.take(klines@.len() as int) =~= klines@);
        proof {
            if old(self).aligned() && klines_aligned(klines@, self.interval.millis()) {
                assert forall|key: u64| #[trigger]
                    self.datapoints@.contains_key(key) implies key % self.interval.millis()
                    == 0 by {
                    assert(self.buckets().contains_key(key));
                    lemma_with_klines_keys(start, klines@, key);
                    if start.contains_key(key) {
                        assert(old(self).datapoints@.contains_key(key));
                    }
                }
            }
        }
        proof {
            if old(self).in_place() && klines_aligned(klines@, self.interval.millis()) {
                lemma_with_klines_in_place(start, klines@, self.interval.millis());
            }
        }
        self.update_poc_status();
    }

    /// A series of the candles of `klines`, each with an empty footprint.
    pub fn new(interval: Timeframe, tick_size: PriceStep, klines: &[Kline]) -> (timeseries: Self)
        ensures
            timeseries.interval == interval,
            timeseries.tick_size == tick_size,
            statuses_settled(
                with_klines(Map::empty(), klines@),
                timeseries.buckets(),
                tick_size,
            ),
            klines_aligned(klines@, interval.millis()) ==> timeseries.aligned(),
            klines_aligned(klines@, interval.millis()) ==> timeseries.in_place(),
    {
        let mut timeseries = TimeSeries { datapoints: BTreeMap::new(), interval, tick_size };
        assert(timeseries.buckets() =~= Map::empty());
        timeseries.insert_klines(klines);
        timeseries
    }

    /// A copy of this series that has taken a batch of trades as
    /// `insert_trades_or_create_bucket` takes it; this series stays as it is.
    pub fn with_trades(&self, trades: &[Trade]) -> (new_series: TimeSeries<KlineDataPoint>)
        ensures
            new_series.interval == self.interval,
            new_series.tick_size == self.tick_size,
            trades_inserted(
                self.buckets(),
                new_series.buckets(),
                trades@,
                self.interval.millis(),
                self.tick_size,
                true,
            ),
            self.aligned() ==> new_series.aligned(),
            self.in_place() ==> new_series.in_place(),
    {
        let mut new_series = TimeSeries {
            datapoints: self.datapoints.clone(),
            interval: self.interval,
            tick_size: self.tick_size,
        };
        assert(new_series.buckets() =~= self.buckets());
        new_series.insert_trades_or_create_bucket(trades);
        new_series
    }

    /// What the buckets of `buckets` hold once their trades are dropped.
    pub open spec fn all_cleared(buckets: Map<u64, Bucket>) -> Map<u64, Bucket> {
        Map::new(|key: u64| buckets.contains_key(key), |key: u64| buckets[key].cleared())
    }

    /// Sets the price step and builds the footprints anew: drops the trades
    /// of every bucket and takes `raw_trades` as
    /// `insert_trades_existing_buckets` takes them. Candles stay as they are
    /// and no bucket is opened.
    pub fn change_tick_size(&mut self, tick_size: PriceStep, raw_trades: &[Trade])
        ensures
            final(self).interval == old(self).interval,
            final(self).tick_size == tick_size,
            trades_inserted(
                Self::all_cleared(old(self).buckets()),
                final(self).buckets(),
                raw_trades@,
                old(self).interval.millis(),
                tick_size,
                false,
            ),
            old(self).aligned() ==> final(self).aligned(),
            old(self).in_place() ==> final(self).in_place(),
    {
        self.tick_size = tick_size;
        self.clear_trades();
        assert(self.buckets() =~= Self::all_cleared(old(self).buckets()));
        if raw_trades.len() > 0 {
            self.insert_trades_existing_buckets(raw_trades);
        } else {
            proof {
                let cleared = self.buckets();
                assert forall|key: u64| #[trigger] cleared.contains_key(key) implies bucket_fed(
                    bucket_at(cleared, key),
                    cleared[key],
                    raw_trades@,
                    key,
                    self.interval.millis(),
                    tick_size,
                ) by {}
            }
        }
    }

    /// The start of the last bucket without trades, or nothing where every
    /// bucket has trades.
    fn last_empty_bucket(&self) -> (gap: Option<u64>)
        ensures
            match gap {
                Some(key) => is_gap(self.buckets(), key),
                None => no_gap(self.buckets()),
            },
    {
        let mut next = key_at_or_before(&self.datapoints, u64::MAX);
        while next.is_some()
            invariant
                match next {
                    Some(k) => self.buckets().contains_key(k),
                    None => true,
                },
                forall|other: u64| #[trigger]
                    self.buckets().contains_key(other) && (next is None || next->Some_0 < other)
                        ==> self.buckets()[other].footprint.has_trades(),
            decreases
                match next {
                    Some(k) => k + 1,
                    None => 0,
                },
        {
            let key = next.unwrap();
            match self.datapoints.get(&key) {
                Some(dp) => {
                    if dp.footprint.trades.is_empty() {
                        return Some(key);
                    }
                },
                None => {},
            }
            next = key_before(&self.datapoints, key);
        }
        None
    }

    /// The latest trade time of the nearest bucket before `gap` that has
    /// trades.
    fn last_trade_before(&self, gap: u64) -> (time: Option<u64>)
        ensures
            is_last_before(self.buckets(), gap, time),
    {
        let mut next = key_before(&self.datapoints, gap);
        while next.is_some()
            invariant
                match next {
                    Some(k) => self.buckets().contains_key(k) && k < gap,
                    None => true,
                },
                forall|other: u64| #[trigger]
                    self.buckets().contains_key(other) && other < gap && (next is None
                        || next->Some_0 < other) ==> !self.buckets()[other].footprint.has_trades(),
            decreases
                match next {
                    Some(k) => k + 1,
                    None => 0,
                },
        {
            let key = next.unwrap();
            match self.datapoints.get(&key) {
                Some(dp) => {
                    match dp.last_trade_time() {
                        Some(t) => {
                            assert(is_nearest_before(self.buckets(), gap, key));
                            return Some(t);
                        },
                        None => {},
                    }
                },
                None => {},
            }
            next = key_before(&self.datapoints, key);
        }
        None
    }

    /// The earliest trade time of the nearest bucket after `gap` that has
    /// trades.
    fn first_trade_after(&self, gap: u64) -> (time: Option<u64>)
        ensures
            is_first_after(self.buckets(), gap, time),
    {
        let mut next = key_after(&self.datapoints, gap);
        while next.is_some()
            invariant
                match next {
                    Some(k) => self.buckets().contains_key(k) && gap < k,
                    None => true,
                },
                forall|other: u64| #[trigger]
                    self.buckets().contains_key(other) && gap < other && (next is None || other
                        < next->Some_0) ==> !self.buckets()[other].footprint.has_trades(),
            decreases
                match next {
                    Some(k) => u64::MAX - k + 1,
                    None => 0,
                },
        {
            let key = next.unwrap();
            match self.datapoints.get(&key) {
                Some(dp) => {
                    match dp.first_trade_time() {
                        Some(t) => {
                            assert(is_nearest_after(self.buckets(), gap, key));
                            return Some(t);
                        },
                        None => {},
                    }
                },
                None => {},
            }
            next = key_after(&self.datapoints, key);
        }
        None
    }

    /// The trade times on both sides of the last bucket without trades: the
    /// latest trade of the nearest earlier bucket that has trades, and the
    /// earliest trade of the nearest later one. Nothing where every bucket
    /// has trades.
    pub fn find_trade_gap(&self) -> (edges: Option<(Option<u64>, Option<u64>)>)
        ensures
            match edges {
                Some(edges) => is_trade_gap(self.buckets(), edges),
                None => no_gap(self.buckets()),
            },
    {
        match self.last_empty_bucket() {
            Some(target_time) => {
                let last_t_before_gap = self.last_trade_before(target_time);
                let first_t_after_gap = self.first_trade_after(target_time);
                assert(is_gap(self.buckets(), target_time));
                Some((last_t_before_gap, first_t_after_gap))
            },
            None => None,
        }
    }

    /// The range of time for which trades are worth fetching, or nothing.
    /// The gap is at the last bucket without trades. The range begins a
    /// millisecond after the last trade before the gap, or at the first
    /// bucket where there is no such trade, and not before
    /// `visible_earliest`. It ends a millisecond before the first trade
    /// after the gap, or at the last bucket, and not after `visible_latest`.
    /// There is nothing to fetch where every bucket has trades, where no
    /// trade is known on either side of the gap, or where the range would
    /// not begin before it ends.
    pub fn suggest_trade_fetch_range(&self, visible_earliest: u64, visible_latest: u64) -> (range:
        Option<(u64, u64)>)
        ensures
            no_gap(self.buckets()) ==> range is None,
            !no_gap(self.buckets()) ==> is_fetch_range(
                self.buckets(),
                visible_earliest,
                visible_latest,
                range,
            ),
    {
        if self.datapoints.is_empty() {
            assert(self.buckets().dom() =~= Set::empty());
            return None;
        }
        match self.find_trade_gap() {
            Some(edges) => {
                let data = self.timerange();
                proof {
                    let gap = choose|gap: u64| #[trigger]
                        is_gap(self.buckets(), gap) && is_last_before(self.buckets(), gap, edges.0)
                            && is_first_after(self.buckets(), gap, edges.1);
                    assert(self.keys().contains(gap));
                    assert(self.buckets().dom() =~= self.keys());
                    assert(is_data_range(self.buckets().dom(), data));
                    assert(!no_gap(self.buckets()));
                }
                fetch_range(edges, data.0, data.1, visible_earliest, visible_latest)
            },
            None => None,
        }
    }

    /// The greatest quantity of kind `cluster_kind` of the bins priced from
    /// `lowest` to `highest` in the buckets that start from `earliest` to
    /// `latest`, and zero where there is no such bin.
    pub fn max_qty_ts_range(
        &self,
        cluster_kind: ClusterKind,
        earliest: u64,
        latest: u64,
        highest: Price,
        lowest: Price,
    ) -> (max_cluster_qty: u64)
        ensures
            forall|key: u64| #[trigger]
                self.buckets().contains_key(key) && earliest <= key <= latest
                    ==> self.buckets()[key].cluster_qty_bounded(
                    cluster_kind,
                    highest,
                    lowest,
                    max_cluster_qty,
                ),
            max_cluster_qty == 0 || exists|key: u64| #[trigger]
                self.buckets().contains_key(key) && earliest <= key <= latest
                    && self.buckets()[key].cluster_qty_reached(
                    cluster_kind,
                    highest,
                    lowest,
                    max_cluster_qty,
                ),
    {
        let mut max_cluster_qty: u64 = 0;
        let mut next = key_at_or_after(&self.datapoints, earliest);
        while next.is_some() && next.unwrap() <= latest
            invariant
                match next {
                    Some(k) => self.buckets().contains_key(k) && earliest <= k,
                    None => true,
                },
                forall|key: u64| #[trigger]
                    self.buckets().contains_key(key) && earliest <= key <= latest && (next is None
                        || key < next->Some_0) ==> self.buckets()[key].cluster_qty_bounded(
                        cluster_kind,
                        highest,
                        lowest,
                        max_cluster_qty,
                    ),
                max_cluster_qty == 0 || exists|key: u64| #[trigger]
                    self.buckets().contains_key(key) && earliest <= key <= latest
                        && self.buckets()[key].cluster_qty_reached(
                        cluster_kind,
                        highest,
                        lowest,
                        max_cluster_qty,
                    ),
            decreases
                match next {
                    Some(k) => u64::MAX - k + 1,
                    None => 0,
                },
        {
            let key = next.unwrap();
            match self.datapoints.get(&key) {
                Some(dp) => {
                    let qty = dp.max_cluster_qty(cluster_kind, highest, lowest);
                    if qty > max_cluster_qty {
                        max_cluster_qty = qty;
                    }
                },
                None => {},
            }
            next = key_after(&self.datapoints, key);
        }
        max_cluster_qty
    }

    /// The bought and sold volume of the candle of every bucket.
    pub open spec fn volumes(&self) -> Map<u64, (u64, u64)> {
        Map::new(
            |key: u64| self.buckets().contains_key(key),
            |key: u64| self.buckets()[key].kline.volume,
        )
    }

    /// The bought and sold volume of the candle of every bucket, by the time
    /// at which the bucket starts.
    pub fn volume_data(&self) -> (volumes: BTreeMap<u64, (u64, u64)>)
        ensures
            volumes@ == self.volumes(),
    {
        let mut volumes: BTreeMap<u64, (u64, u64)> = BTreeMap::new();
        let mut next = key_at_or_after(&self.datapoints, 0);
        while next.is_some()
            invariant
                match next {
                    Some(k) => self.buckets().contains_key(k),
                    None => true,
                },
                forall|key: u64| #[trigger]
                    volumes@.contains_key(key) <==> self.buckets().contains_key(key) && (next
                        is None || key < next->Some_0),
                forall|key: u64| #[trigger]
                    volumes@.contains_key(key) ==> volumes@[key]
                        == self.buckets()[key].kline.volume,
            decreases
                match next {
                    Some(k) => u64::MAX - k + 1,
                    None => 0,
                },
        {
            let key = next.unwrap();
            match self.datapoints.get(&key) {
                Some(dp) => {
                    volumes.insert(key, dp.kline.volume);
                },
                None => {},
            }
            next = key_after(&self.datapoints, key);
        }
        assert(volumes@ =~= self.volumes());
        volumes
    }
}

impl From<&TimeSeries<KlineDataPoint>> for BTreeMap<u64, (u64, u64)> {
    /// The bought and sold volume of the candle of every bucket, by the time
    /// at which the bucket starts.
    fn from(timeseries: &TimeSeries<KlineDataPoint>) -> (volumes: Self)
        ensures
            volumes@ == timeseries.volumes(),
    {
        timeseries.volume_data()
    }
}

impl vstd::std_specs::convert::FromSpecImpl<&TimeSeries<KlineDataPoint>> for BTreeMap<u64, (u64, u64)> {
    /// Two maps that hold the same volumes need not be one map: `from`
    /// states what the map it returns holds, not which map it is.
    open spec fn obeys_from_spec() -> bool {
        false
    }

    open spec fn from_spec(timeseries: &TimeSeries<KlineDataPoint>) -> Self {
        choose|volumes: BTreeMap<u64, (u64, u64)>| volumes@ == timeseries.volumes()
    }
}

} // verus!
