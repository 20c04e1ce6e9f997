//! Candle buckets and their footprints.

use crate::aggr::time::DataPoint;
use crate::chart::bins::bin_at;
use crate::chart::bins::bin_entries;
use crate::chart::bins::lists_bins;
use crate::chart::bins::put_bin;
use crate::market::Kline;
use crate::market::Trade;
use crate::price::Price;
use crate::price::PriceStep;
use rustc_hash::FxHashMap;
use vstd::prelude::*;

verus! {

/// The sum of two quantities, held at the greatest quantity where it would
/// pass it.
pub open spec fn sat_add(a: u64, b: u64) -> u64 {
    if a + b > u64::MAX {
        u64::MAX
    } else {
        (a + b) as u64
    }
}

/// The successor of a count, held at the greatest count.
pub open spec fn sat_succ(n: usize) -> usize {
    if n + 1 > usize::MAX {
        usize::MAX
    } else {
        (n + 1) as usize
    }
}

/// What was bought and sold at one price level of one bucket.
#[derive(Debug, Clone, Copy)]
pub struct GroupedTrades {
    pub buy_qty: u64,
    pub sell_qty: u64,
    /// The time of the first trade that came in at this level.
    pub first_time: u64,
    /// The time of the last trade that came in at this level.
    pub last_time: u64,
    pub buy_count: usize,
    pub sell_count: usize,
}

impl GroupedTrades {
    /// The bin that one trade opens.
    pub open spec fn opened_by(trade: Trade) -> GroupedTrades {
        GroupedTrades {
            buy_qty: if trade.is_sell { 0 } else { trade.qty },
            sell_qty: if trade.is_sell { trade.qty } else { 0 },
            first_time: trade.time,
            last_time: trade.time,
            buy_count: if trade.is_sell { 0 } else { 1 },
            sell_count: if trade.is_sell { 1 } else { 0 },
        }
    }

    /// This bin after one more trade.
    pub open spec fn with_trade(self, trade: Trade) -> GroupedTrades {
        GroupedTrades {
            buy_qty: if trade.is_sell { self.buy_qty } else { sat_add(self.buy_qty, trade.qty) },
            sell_qty: if trade.is_sell { sat_add(self.sell_qty, trade.qty) } else { self.sell_qty },
            first_time: self.first_time,
            last_time: trade.time,
            buy_count: if trade.is_sell { self.buy_count } else { sat_succ(self.buy_count) },
            sell_count: if trade.is_sell { sat_succ(self.sell_count) } else { self.sell_count },
        }
    }

    /// Bought and sold quantity together.
    pub open spec fn total(self) -> u64 {
        sat_add(self.buy_qty, self.sell_qty)
    }

    /// Bought quantity less sold quantity.
    pub open spec fn delta(self) -> int {
        self.buy_qty - self.sell_qty
    }

    /// Opens a bin with its first trade.
    pub fn new(trade: &Trade) -> (bin: GroupedTrades)
        ensures
            bin == GroupedTrades::opened_by(*trade),
    {
        GroupedTrades {
            buy_qty: if trade.is_sell { 0 } else { trade.qty },
            sell_qty: if trade.is_sell { trade.qty } else { 0 },
            first_time: trade.time,
            last_time: trade.time,
            buy_count: if trade.is_sell { 0 } else { 1 },
            sell_count: if trade.is_sell { 1 } else { 0 },
        }
    }

    /// Adds a trade to the side it was made on. No quantity and no count
    /// ever goes down.
    pub fn add_trade(&mut self, trade: &Trade)
        ensures
            *final(self) == old(self).with_trade(*trade),
            final(self).buy_qty >= old(self).buy_qty,
            final(self).sell_qty >= old(self).sell_qty,
            final(self).buy_count >= old(self).buy_count,
            final(self).sell_count >= old(self).sell_count,
    {
        if trade.is_sell {
            self.sell_qty = self.sell_qty.saturating_add(trade.qty);
            self.sell_count = self.sell_count.saturating_add(1);
        } else {
            self.buy_qty = self.buy_qty.saturating_add(trade.qty);
            self.buy_count = self.buy_count.saturating_add(1);
        }
        self.last_time = trade.time;
    }

    /// Bought and sold quantity together, held at the greatest quantity.
    pub fn total_qty(&self) -> (qty: u64)
        ensures
            qty == self.total(),
    {
        self.buy_qty.saturating_add(self.sell_qty)
    }

    /// Bought quantity less sold quantity.
    pub fn delta_qty(&self) -> (qty: i128)
        ensures
            qty == self.delta(),
    {
        self.buy_qty as i128 - self.sell_qty as i128
    }
}

impl Default for GroupedTrades {
    fn default() -> (bin: GroupedTrades)
        ensures
            bin == (GroupedTrades {
                buy_qty: 0,
                sell_qty: 0,
                first_time: 0,
                last_time: 0,
                buy_count: 0,
                sell_count: 0,
            }),
    {
        GroupedTrades {
            buy_qty: 0,
            sell_qty: 0,
            first_time: 0,
            last_time: 0,
            buy_count: 0,
            sell_count: 0,
        }
    }
}

/// Whether price has come back to a point of control.
#[derive(Debug, Clone, Copy, PartialEq, Eq, Structural)]
pub enum NPoc {
    /// No later bucket has been looked at yet.
    Unset,
    /// No later bucket has covered the price.
    Naked,
    /// The bucket that starts at `at` was the first later bucket to cover
    /// the price.
    Filled { at: u64 },
}

impl NPoc {
    /// Marks the point of control as covered by the bucket that starts at `at`.
    pub fn filled(&mut self, at: u64)
        ensures
            *final(self) == (NPoc::Filled { at }),
    {
        *self = NPoc::Filled { at };
    }

    /// Marks the point of control as not covered.
    pub fn unfilled(&mut self)
        ensures
            *final(self) == NPoc::Naked,
    {
        *self = NPoc::Naked;
    }
}

impl Default for NPoc {
    fn default() -> (status: NPoc)
        ensures
            status == NPoc::Unset,
    {
        NPoc::Unset
    }
}

/// The price level of a bucket that traded most.
#[derive(Debug, Clone, Copy)]
pub struct PointOfControl {
    pub price: Price,
    /// The total quantity traded at `price`.
    pub volume: u64,
    pub status: NPoc,
}

impl Default for PointOfControl {
    fn default() -> (poc: PointOfControl)
        ensures
            poc == (PointOfControl { price: Price { units: 0 }, volume: 0, status: NPoc::Unset }),
    {
        PointOfControl { price: Price { units: 0 }, volume: 0, status: NPoc::Unset }
    }
}

/// What a footprint holds: the bin of each traded price level, and the point
/// of control as it was last calculated.
pub struct Footprint {
    pub bins: Map<i64, GroupedTrades>,
    pub poc: Option<PointOfControl>,
}

impl Footprint {
    /// The footprint of a bucket without trades.
    pub open spec fn empty() -> Footprint {
        Footprint { bins: Map::empty(), poc: None }
    }

    /// Whether any trade has come in.
    pub open spec fn has_trades(self) -> bool {
        !self.bins.is_empty()
    }

    /// This footprint after `trade` has gone into the bin at `price`.
    pub open spec fn with_trade_at(self, price: i64, trade: Trade) -> Footprint {
        Footprint {
            bins: self.bins.insert(
                price,
                if self.bins.contains_key(price) {
                    self.bins[price].with_trade(trade)
                } else {
                    GroupedTrades::opened_by(trade)
                },
            ),
            poc: self.poc,
        }
    }

    /// This footprint after `trade` has gone into the bin nearest to its price.
    pub open spec fn with_trade(self, trade: Trade, step: PriceStep) -> Footprint {
        self.with_trade_at(trade.price.rounded(step).units, trade)
    }

    /// This footprint after `trade` has gone into the bin on its side of its
    /// price: below for a sell, above for a buy.
    pub open spec fn with_side_trade(self, trade: Trade, step: PriceStep) -> Footprint {
        self.with_trade_at(trade.price.side_rounded(trade.is_sell, step).units, trade)
    }

    /// `time` is the least of the bins' first times.
    pub open spec fn is_first_trade(self, time: u64) -> bool {
        &&& exists|price: i64| #[trigger]
            self.bins.contains_key(price) && self.bins[price].first_time == time
        &&& forall|price: i64| #[trigger]
            self.bins.contains_key(price) ==> time <= self.bins[price].first_time
    }

    /// `time` is the greatest of the bins' last times.
    pub open spec fn is_last_trade(self, time: u64) -> bool {
        &&& exists|price: i64| #[trigger]
            self.bins.contains_key(price) && self.bins[price].last_time == time
        &&& forall|price: i64| #[trigger]
            self.bins.contains_key(price) ==> self.bins[price].last_time <= time
    }

    /// The bin at `price` has the greatest total quantity, `volume`, and is
    /// the lowest in price of the bins that have it.
    pub open spec fn is_poc(self, price: i64, volume: u64) -> bool {
        &&& self.bins.contains_key(price)
        &&& self.bins[price].total() == volume
        &&& forall|other: i64| #[trigger]
            self.bins.contains_key(other) ==> self.bins[other].total() < volume || (
            self.bins[other].total() == volume && price <= other)
    }

    /// The point of control is the one that the bins have now: none where
    /// there are no bins.
    pub open spec fn poc_is_current(self) -> bool {
        match self.poc {
            Some(poc) => self.is_poc(poc.price.units, poc.volume),
            None => !self.has_trades(),
        }
    }

    /// `after` is this footprint with its point of control calculated anew.
    /// Without bins nothing changes. With bins the point of control is the
    /// one that the bins have, and its status is unset.
    pub open spec fn recalculated(self, after: Footprint) -> bool {
        &&& after.bins == self.bins
        &&& if self.has_trades() {
            match after.poc {
                Some(poc) => after.is_poc(poc.price.units, poc.volume) && poc.status
                    == NPoc::Unset,
                None => false,
            }
        } else {
            after.poc == self.poc
        }
    }

    /// This footprint with `status` on its point of control, if it has one.
    pub open spec fn with_status(self, status: NPoc) -> Footprint {
        Footprint {
            bins: self.bins,
            poc: match self.poc {
                Some(poc) => Some(PointOfControl { status, ..poc }),
                None => None,
            },
        }
    }

    /// The price of the point of control, if there is one.
    pub open spec fn poc_price(self) -> Option<Price> {
        match self.poc {
            Some(poc) => Some(poc.price),
            None => None,
        }
    }

    /// `qty` is what `f` may return for the bin at `price`, whose price lies
    /// between `lowest` and `highest`.
    pub open spec fn qty_by<F: Fn(u64, u64) -> u64>(
        self,
        price: i64,
        highest: Price,
        lowest: Price,
        f: F,
        qty: u64,
    ) -> bool {
        &&& self.bins.contains_key(price)
        &&& lowest.units <= price <= highest.units
        &&& call_ensures(f, (self.bins[price].buy_qty, self.bins[price].sell_qty), qty)
    }
}

/// A footprint has at most one point of control.
pub proof fn lemma_poc_unique(
    footprint: Footprint,
    price: i64,
    volume: u64,
    other_price: i64,
    other_volume: u64,
)
    requires
        footprint.is_poc(price, volume),
        footprint.is_poc(other_price, other_volume),
    ensures
        price == other_price,
        volume == other_volume,
{
}

/// A footprint has at most one first and one last trade time, and none
/// without trades.
pub proof fn lemma_trade_times_unique(footprint: Footprint, one: u64, other: u64)
    ensures
        footprint.is_first_trade(one) && footprint.is_first_trade(other) ==> one == other,
        footprint.is_last_trade(one) && footprint.is_last_trade(other) ==> one == other,
        footprint.is_first_trade(one) || footprint.is_last_trade(one) ==> footprint.has_trades(),
{
    if footprint.is_first_trade(one) {
        let price = choose|price: i64| #[trigger]
            footprint.bins.contains_key(price) && footprint.bins[price].first_time == one;
        assert(footprint.bins.dom().contains(price));
    }
    if footprint.is_last_trade(one) {
        let price = choose|price: i64| #[trigger]
            footprint.bins.contains_key(price) && footprint.bins[price].last_time == one;
        assert(footprint.bins.dom().contains(price));
    }
}

/// To calculate the point of control a second time changes nothing.
pub proof fn lemma_recalculated_twice(start: Footprint, once: Footprint, twice: Footprint)
    requires
        start.recalculated(once),
        once.recalculated(twice),
    ensures
        twice == once,
{
    if start.has_trades() {
        let a = once.poc->Some_0;
        let b = twice.poc->Some_0;
        lemma_poc_unique(once, a.price.units, a.volume, b.price.units, b.volume);
    }
}

/// The trades of one bucket by price level, with the point of control.
#[derive(Debug, Clone)]
pub struct KlineTrades {
    /// The bin of each traded price level, keyed by the price in atomic units.
    pub trades: FxHashMap<i64, GroupedTrades>,
    pub poc: Option<PointOfControl>,
}

impl View for KlineTrades {
    type V = Footprint;

    open spec fn view(&self) -> Footprint {
        Footprint { bins: self.trades@, poc: self.poc }
    }
}

impl KlineTrades {
    /// A footprint without trades.
    pub fn new() -> (footprint: KlineTrades)
        ensures
            footprint@ == Footprint::empty(),
    {
        KlineTrades { trades: FxHashMap::default(), poc: None }
    }

    /// The least of the bins' first times, or nothing where no trade has
    /// come in.
    pub fn first_trade_t(&self) -> (time: Option<u64>)
        ensures
            match time {
                Some(t) => self@.is_first_trade(t),
                None => !self@.has_trades(),
            },
    {
        let entries = bin_entries(&self.trades);
        if entries.len() == 0 {
            assert(self@.bins.dom() =~= Set::empty());
            return None;
        }
        let mut least = entries[0].1.first_time;
        let ghost mut at: int = 0;
        let mut i: usize = 1;
        while i < entries.len()
            invariant
                1 <= i <= entries.len(),
                lists_bins(entries@, self.trades@),
                0 <= at < i,
                entries@[at].1.first_time == least,
                forall|j: int| 0 <= j < i ==> least <= (#[trigger] entries@[j]).1.first_time,
            decreases entries.len() - i,
        {
            if entries[i].1.first_time < least {
                least = entries[i].1.first_time;
                proof {
                    at = i as int;
                }
            }
            i += 1;
        }
        proof {
            assert(self@.bins.contains_key(entries@[at].0));
            assert forall|price: i64| #[trigger]
                self@.bins.contains_key(price) implies least <= self@.bins[price].first_time by {
                let j = choose|j: int| 0 <= j < entries@.len() && #[trigger] entries@[j].0 == price;
                assert(least <= entries@[j].1.first_time);
            }
        }
        Some(least)
    }

    /// The greatest of the bins' last times, or nothing where no trade has
    /// come in.
    pub fn last_trade_t(&self) -> (time: Option<u64>)
        ensures
            match time {
                Some(t) => self@.is_last_trade(t),
                None => !self@.has_trades(),
            },
    {
        let entries = bin_entries(&self.trades);
        if entries.len() == 0 {
            assert(self@.bins.dom() =~= Set::empty());
            return None;
        }
        let mut greatest = entries[0].1.last_time;
        let ghost mut at: int = 0;
        let mut i: usize = 1;
        while i < entries.len()
            invariant
                1 <= i <= entries.len(),
                lists_bins(entries@, self.trades@),
                0 <= at < i,
                entries@[at].1.last_time == greatest,
                forall|j: int| 0 <= j < i ==> (#[trigger] entries@[j]).1.last_time <= greatest,
            decreases entries.len() - i,
        {
            if entries[i].1.last_time > greatest {
                greatest = entries[i].1.last_time;
                proof {
                    at = i as int;
                }
            }
            i += 1;
        }
        proof {
            assert(self@.bins.contains_key(entries@[at].0));
            assert forall|price: i64| #[trigger]
                self@.bins.contains_key(price) implies self@.bins[price].last_time
                <= greatest by {
                let j = choose|j: int| 0 <= j < entries@.len() && #[trigger] entries@[j].0 == price;
                assert(entries@[j].1.last_time <= greatest);
            }
        }
        Some(greatest)
    }

    /// Puts `trade` into the bin at `price`, which it opens if there is none.
    fn add_trade_at(&mut self, price: i64, trade: &Trade)
        ensures
            final(self)@ == old(self)@.with_trade_at(price, *trade),
    {
        match bin_at(&self.trades, price) {
            Some(mut bin) => {
                bin.add_trade(trade);
                put_bin(&mut self.trades, price, bin);
            },
            None => {
                put_bin(&mut self.trades, price, GroupedTrades::new(trade));
            },
        }
    }

    /// Puts a trade into the bin on its side of its price: a sell goes down
    /// to a multiple of the step, a buy goes up. This is the binning of an
    /// order book; it shifts volume at the bin boundaries and is not used for
    /// candles.
    pub fn add_trade_to_side_bin(&mut self, trade: &Trade, step: PriceStep)
        ensures
            final(self)@ == old(self)@.with_side_trade(*trade, step),
    {
        let price = trade.price.round_to_side_step(trade.is_sell, step);
        self.add_trade_at(price.units, trade);
    }

    /// Puts a trade into the bin nearest to its price, whatever its side; a
    /// price halfway between two bins goes to the higher one.
    pub fn add_trade_to_nearest_bin(&mut self, trade: &Trade, step: PriceStep)
        ensures
            final(self)@ == old(self)@.with_trade(*trade, step),
    {
        let price = trade.price.round_to_step(step);
        self.add_trade_at(price.units, trade);
    }

    /// The greatest value of `f` on the bought and sold quantities of the
    /// bins priced from `lowest` to `highest`, and zero where there is none.
    pub fn max_qty_by<F>(&self, highest: Price, lowest: Price, f: F) -> (max_qty: u64) where
        F: Fn(u64, u64) -> u64,

        requires
            forall|price: i64| #[trigger]
                self@.bins.contains_key(price) && lowest.units <= price <= highest.units
                    ==> call_requires(
                    f,
                    (self@.bins[price].buy_qty, self@.bins[price].sell_qty),
                ),
        ensures
            forall|price: i64| #[trigger]
                self@.bins.contains_key(price) && lowest.units <= price <= highest.units
                    ==> exists|qty: u64| #[trigger]
                    self@.qty_by(price, highest, lowest, f, qty) && qty <= max_qty,
            max_qty == 0 || exists|price: i64| #[trigger]
                self@.qty_by(price, highest, lowest, f, max_qty),
    {
        let entries = bin_entries(&self.trades);
        let mut max_qty: u64 = 0;
        let ghost mut seen: Seq<u64> = Seq::empty();
        let mut i: usize = 0;
        while i < entries.len()
            invariant
                i <= entries.len(),
                lists_bins(entries@, self.trades@),
                seen.len() == i,
                forall|price: i64| #[trigger]
                    self@.bins.contains_key(price) && lowest.units <= price <= highest.units
                        ==> call_requires(
                        f,
                        (self@.bins[price].buy_qty, self@.bins[price].sell_qty),
                    ),
                forall|j: int|
                    0 <= j < i && lowest.units <= (#[trigger] entries@[j]).0 <= highest.units
                        ==> self@.qty_by(entries@[j].0, highest, lowest, f, seen[j]) && seen[j]
                        <= max_qty,
                max_qty == 0 || exists|price: i64| #[trigger]
                    self@.qty_by(price, highest, lowest, f, max_qty),
            decreases entries.len() - i,
        {
            let (price, bin) = entries[i];
            let mut qty: u64 = 0;
            if price >= lowest.units && price <= highest.units {
                assert(self@.bins.contains_key(entries@[i as int].0));
                qty = f(bin.buy_qty, bin.sell_qty);
                assert(self@.qty_by(price, highest, lowest, f, qty));
                if qty > max_qty {
                    max_qty = qty;
                }
            }
            proof {
                seen = seen.push(qty);
            }
            i += 1;
        }
        proof {
            assert forall|price: i64| #[trigger]
                self@.bins.contains_key(price) && lowest.units <= price
                    <= highest.units implies exists|qty: u64| #[trigger]
                self@.qty_by(price, highest, lowest, f, qty) && qty <= max_qty by {
                let j = choose|j: int| 0 <= j < entries@.len() && #[trigger] entries@[j].0 == price;
                assert(self@.qty_by(entries@[j].0, highest, lowest, f, seen[j]));
            }
        }
        max_qty
    }

    /// Calculates the point of control from the bins: the bin with the
    /// greatest total quantity, and of several such bins the lowest in price.
    /// Its status is unset. Without bins nothing changes: a point of control
    /// that was there stays.
    pub fn calculate_poc(&mut self)
        ensures
            old(self)@.recalculated(final(self)@),
    {
        let entries = bin_entries(&self.trades);
        if entries.len() == 0 {
            assert(self@.bins.dom() =~= Set::empty());
            return ;
        }
        let mut max_volume = entries[0].1.total_qty();
        let mut poc_price = entries[0].0;
        let ghost mut at: int = 0;
        let mut i: usize = 1;
        while i < entries.len()
            invariant
                1 <= i <= entries.len(),
                lists_bins(entries@, self.trades@),
                0 <= at < i,
                entries@[at].0 == poc_price,
                entries@[at].1.total() == max_volume,
                forall|j: int|
                    0 <= j < i ==> (#[trigger] entries@[j]).1.total() < max_volume || (
                    entries@[j].1.total() == max_volume && poc_price <= entries@[j].0),
            decreases entries.len() - i,
        {
            let (price, bin) = entries[i];
            let total_volume = bin.total_qty();
            if total_volume > max_volume || (total_volume == max_volume && price < poc_price) {
                max_volume = total_volume;
                poc_price = price;
                proof {
                    at = i as int;
                }
            }
            i += 1;
        }
        proof {
            assert(self@.bins.contains_key(entries@[at].0));
            assert forall|other: i64| #[trigger]
                self@.bins.contains_key(other) implies self@.bins[other].total() < max_volume
                || (self@.bins[other].total() == max_volume && poc_price <= other) by {
                let j = choose|j: int| 0 <= j < entries@.len() && #[trigger] entries@[j].0 == other;
                assert(entries@[j].1.total() < max_volume || (entries@[j].1.total() == max_volume
                    && poc_price <= entries@[j].0));
            }
        }
        self.poc = Some(
            PointOfControl {
                price: Price { units: poc_price },
                volume: max_volume,
                status: NPoc::Unset,
            },
        );
    }

    /// Sets the status of the point of control, if there is one.
    pub fn set_poc_status(&mut self, status: NPoc)
        ensures
            final(self)@ == old(self)@.with_status(status),
    {
        match self.poc {
            Some(poc) => {
                self.poc = Some(PointOfControl { price: poc.price, volume: poc.volume, status });
            },
            None => {},
        }
    }

    /// The price of the point of control, if there is one.
    pub fn poc_price(&self) -> (price: Option<Price>)
        ensures
            price == self@.poc_price(),
    {
        match self.poc {
            Some(poc) => Some(poc.price),
            None => None,
        }
    }

    /// Drops the bins and the point of control.
    pub fn clear(&mut self)
        ensures
            final(self)@ == Footprint::empty(),
    {
        self.trades.clear();
        self.poc = None;
    }
}

impl Default for KlineTrades {
    fn default() -> (footprint: KlineTrades)
        ensures
            footprint@ == Footprint::empty(),
    {
        KlineTrades::new()
    }
}

/// What a footprint chart shows in the cell of a price level.
#[derive(Debug, Clone, Copy, PartialEq, Eq, Structural)]
pub enum ClusterKind {
    /// Sold quantity to the left, bought quantity to the right.
    BidAsk,
    /// Bought and sold quantity together.
    VolumeProfile,
    /// Bought quantity less sold quantity.
    DeltaProfile,
}

impl ClusterKind {
    /// The quantity by which a cell of this kind is scaled: the greater of
    /// the two sides, their sum, or their distance.
    pub open spec fn qty_of(self, bin: GroupedTrades) -> u64 {
        match self {
            ClusterKind::BidAsk => if bin.buy_qty >= bin.sell_qty {
                bin.buy_qty
            } else {
                bin.sell_qty
            },
            ClusterKind::VolumeProfile => sat_add(bin.buy_qty, bin.sell_qty),
            ClusterKind::DeltaProfile => if bin.buy_qty >= bin.sell_qty {
                (bin.buy_qty - bin.sell_qty) as u64
            } else {
                (bin.sell_qty - bin.buy_qty) as u64
            },
        }
    }

    /// Every kind, in the order in which a menu lists them.
    pub const ALL: [ClusterKind; 3] = [
        ClusterKind::BidAsk,
        ClusterKind::VolumeProfile,
        ClusterKind::DeltaProfile,
    ];

    /// The name of the kind as a menu shows it.
    pub open spec fn label(self) -> Seq<char> {
        match self {
            ClusterKind::BidAsk => "Bid/Ask"@,
            ClusterKind::VolumeProfile => "Volume Profile"@,
            ClusterKind::DeltaProfile => "Delta Profile"@,
        }
    }

    /// The name of the kind as a menu shows it.
    pub fn to_string(&self) -> (name: String)
        ensures
            name@ == self.label(),
    {
        match self {
            ClusterKind::BidAsk => "Bid/Ask".to_owned(),
            ClusterKind::VolumeProfile => "Volume Profile".to_owned(),
            ClusterKind::DeltaProfile => "Delta Profile".to_owned(),
        }
    }
}

impl Default for ClusterKind {
    fn default() -> (kind: ClusterKind)
        ensures
            kind == ClusterKind::BidAsk,
    {
        ClusterKind::BidAsk
    }
}

/// What a candle bucket holds: the candle and the footprint.
pub struct Bucket {
    pub kline: Kline,
    pub footprint: Footprint,
}

impl Bucket {
    /// This bucket after `trade` has gone into the bin nearest to its price.
    pub open spec fn with_trade(self, trade: Trade, step: PriceStep) -> Bucket {
        Bucket { kline: self.kline, footprint: self.footprint.with_trade(trade, step) }
    }

    /// This bucket without its trades.
    pub open spec fn cleared(self) -> Bucket {
        Bucket { kline: self.kline, footprint: Footprint::empty() }
    }

    /// `qty` bounds the quantities of kind `kind` of the bins priced from
    /// `lowest` to `highest`.
    pub open spec fn cluster_qty_bounded(
        self,
        kind: ClusterKind,
        highest: Price,
        lowest: Price,
        qty: u64,
    ) -> bool {
        forall|price: i64| #[trigger]
            self.footprint.bins.contains_key(price) && lowest.units <= price <= highest.units
                ==> kind.qty_of(self.footprint.bins[price]) <= qty
    }

    /// `qty` is the quantity of kind `kind` of a bin priced from `lowest` to
    /// `highest`.
    pub open spec fn cluster_qty_reached(
        self,
        kind: ClusterKind,
        highest: Price,
        lowest: Price,
        qty: u64,
    ) -> bool {
        exists|price: i64| #[trigger]
            self.footprint.bins.contains_key(price) && lowest.units <= price <= highest.units
                && kind.qty_of(self.footprint.bins[price]) == qty
    }
}

/// One candle bucket of a time series.
#[derive(Clone)]
pub struct KlineDataPoint {
    pub kline: Kline,
    pub footprint: KlineTrades,
}

impl View for KlineDataPoint {
    type V = Bucket;

    open spec fn view(&self) -> Bucket {
        Bucket { kline: self.kline, footprint: self.footprint@ }
    }
}

/// The greater of the two sides.
fn greater_side(buy: u64, sell: u64) -> (qty: u64)
    ensures
        qty == (if buy >= sell {
            buy
        } else {
            sell
        }),
{
    if buy >= sell {
        buy
    } else {
        sell
    }
}

/// The distance of the two sides.
fn side_distance(buy: u64, sell: u64) -> (qty: u64)
    ensures
        qty == (if buy >= sell {
            buy - sell
        } else {
            sell - buy
        }),
{
    if buy >= sell {
        buy - sell
    } else {
        sell - buy
    }
}

/// The two sides together, held at the greatest quantity.
fn both_sides(buy: u64, sell: u64) -> (qty: u64)
    ensures
        qty == sat_add(buy, sell),
{
    buy.saturating_add(sell)
}

impl KlineDataPoint {
    /// The greatest quantity of kind `cluster_kind` of the bins priced from
    /// `lowest` to `highest`, and zero where there is no such bin.
    pub fn max_cluster_qty(&self, cluster_kind: ClusterKind, highest: Price, lowest: Price) -> (qty:
        u64)
        ensures
            self@.cluster_qty_bounded(cluster_kind, highest, lowest, qty),
            qty == 0 || self@.cluster_qty_reached(cluster_kind, highest, lowest, qty),
    {
        let qty = match cluster_kind {
            ClusterKind::BidAsk => self.footprint.max_qty_by(highest, lowest, greater_side),
            ClusterKind::DeltaProfile => self.footprint.max_qty_by(highest, lowest, side_distance),
            ClusterKind::VolumeProfile => self.footprint.max_qty_by(highest, lowest, both_sides),
        };
        proof {
            assert forall|price: i64| #[trigger]
                self@.footprint.bins.contains_key(price) && lowest.units <= price
                    <= highest.units implies cluster_kind.qty_of(self@.footprint.bins[price])
                <= qty by {
                match cluster_kind {
                    ClusterKind::BidAsk => {
                        let q = choose|q: u64| #[trigger]
                            self.footprint@.qty_by(price, highest, lowest, greater_side, q) && q
                                <= qty;
                    },
                    ClusterKind::DeltaProfile => {
                        let q = choose|q: u64| #[trigger]
                            self.footprint@.qty_by(price, highest, lowest, side_distance, q) && q
                                <= qty;
                    },
                    ClusterKind::VolumeProfile => {
                        let q = choose|q: u64| #[trigger]
                            self.footprint@.qty_by(price, highest, lowest, both_sides, q) && q
                                <= qty;
                    },
                }
            }
            if qty != 0 {
                match cluster_kind {
                    ClusterKind::BidAsk => {
                        let price = choose|price: i64| #[trigger]
                            self.footprint@.qty_by(price, highest, lowest, greater_side, qty);
                        assert(self@.footprint.bins.contains_key(price));
                    },
                    ClusterKind::DeltaProfile => {
                        let price = choose|price: i64| #[trigger]
                            self.footprint@.qty_by(price, highest, lowest, side_distance, qty);
                        assert(self@.footprint.bins.contains_key(price));
                    },
                    ClusterKind::VolumeProfile => {
                        let price = choose|price: i64| #[trigger]
                            self.footprint@.qty_by(price, highest, lowest, both_sides, qty);
                        assert(self@.footprint.bins.contains_key(price));
                    },
                }
            }
        }
        qty
    }

    /// Puts a trade into the footprint, in the bin nearest to its price.
    pub fn add_trade(&mut self, trade: &Trade, step: PriceStep)
        ensures
            final(self)@ == old(self)@.with_trade(*trade, step),
    {
        self.footprint.add_trade_to_nearest_bin(trade, step);
    }

    /// The price of the point of control, if there is one.
    pub fn poc_price(&self) -> (price: Option<Price>)
        ensures
            price == self@.footprint.poc_price(),
    {
        self.footprint.poc_price()
    }

    /// Sets the status of the point of control, if there is one.
    pub fn set_poc_status(&mut self, status: NPoc)
        ensures
            final(self)@ == (Bucket {
                kline: old(self)@.kline,
                footprint: old(self)@.footprint.with_status(status),
            }),
    {
        self.footprint.set_poc_status(status);
    }

    /// Drops the trades and the point of control; the candle stays.
    pub fn clear_trades(&mut self)
        ensures
            final(self)@ == old(self)@.cleared(),
    {
        self.footprint.clear();
    }

    /// Calculates the point of control from the bins; without bins nothing
    /// changes.
    pub fn calculate_poc(&mut self)
        ensures
            final(self)@.kline == old(self)@.kline,
            old(self)@.footprint.recalculated(final(self)@.footprint),
    {
        self.footprint.calculate_poc();
    }

    /// The greatest of the bins' last times, or nothing where no trade has
    /// come in.
    pub fn last_trade_time(&self) -> (time: Option<u64>)
        ensures
            match time {
                Some(t) => self@.footprint.is_last_trade(t),
                None => !self@.footprint.has_trades(),
            },
    {
        self.footprint.last_trade_t()
    }

    /// The least of the bins' first times, or nothing where no trade has
    /// come in.
    pub fn first_trade_time(&self) -> (time: Option<u64>)
        ensures
            match time {
                Some(t) => self@.footprint.is_first_trade(t),
                None => !self@.footprint.has_trades(),
            },
    {
        self.footprint.first_trade_t()
    }
}

impl DataPoint for KlineDataPoint {
    open spec fn traded(&self, before: &Self, trade: Trade, step: PriceStep) -> bool {
        self@ == before@.with_trade(trade, step)
    }

    open spec fn cleared(&self, before: &Self) -> bool {
        self@ == before@.cleared()
    }

    open spec fn is_first_trade_time(&self, time: Option<u64>) -> bool {
        match time {
            Some(t) => self@.footprint.is_first_trade(t),
            None => !self@.footprint.has_trades(),
        }
    }

    open spec fn is_last_trade_time(&self, time: Option<u64>) -> bool {
        match time {
            Some(t) => self@.footprint.is_last_trade(t),
            None => !self@.footprint.has_trades(),
        }
    }

    open spec fn closing_price(&self) -> Price {
        self.kline.close
    }

    open spec fn candle(&self) -> Option<Kline> {
        Some(self.kline)
    }

    open spec fn high_price(&self) -> Price {
        self.kline.high
    }

    open spec fn low_price(&self) -> Price {
        self.kline.low
    }

    fn add_trade(&mut self, trade: &Trade, step: PriceStep) {
        self.footprint.add_trade_to_nearest_bin(trade, step);
    }

    fn clear_trades(&mut self) {
        self.footprint.clear();
    }

    fn last_trade_time(&self) -> (time: Option<u64>) {
        self.footprint.last_trade_t()
    }

    fn first_trade_time(&self) -> (time: Option<u64>) {
        self.footprint.first_trade_t()
    }

    fn last_price(&self) -> (price: Price) {
        self.kline.close
    }

    fn kline(&self) -> (kline: Option<&Kline>) {
        Some(&self.kline)
    }

    fn value_high(&self) -> (price: Price) {
        self.kline.high
    }

    fn value_low(&self) -> (price: Price) {
        self.kline.low
    }
}

/// The settings of a candle chart.
#[derive(Debug, Clone, Copy, PartialEq)]
pub struct Config {}

impl Default for Config {
    fn default() -> (config: Config)
        ensures
            config == (Config {  }),
    {
        Config {  }
    }
}

/// A study drawn over a footprint chart.
#[derive(Debug, Clone, Copy, PartialEq, Eq)]
pub enum FootprintStudy {
    /// Naked points of control, looked for in the last `lookback` buckets.
    NPoC { lookback: usize },
    /// Price levels at which one side outweighs the other.
    Imbalance { threshold: usize, color_scale: Option<usize>, ignore_zeros: bool },
}

impl FootprintStudy {
    /// Whether the two studies are of one kind, whatever their settings.
    pub fn is_same_type(&self, other: &Self) -> (same: bool)
        ensures
            same == ((self is NPoC && other is NPoC) || (self is Imbalance && other is Imbalance)),
    {
        match (self, other) {
            (FootprintStudy::NPoC { .. }, FootprintStudy::NPoC { .. }) => true,
            (FootprintStudy::Imbalance { .. }, FootprintStudy::Imbalance { .. }) => true,
            _ => false,
        }
    }

    /// Every study with the settings it starts with, in the order in which
    /// a menu lists them.
    pub fn all() -> (studies: [FootprintStudy; 2])
        ensures
            studies@ == seq![
                FootprintStudy::NPoC { lookback: 80 },
                FootprintStudy::Imbalance {
                    threshold: 200,
                    color_scale: Some(400usize),
                    ignore_zeros: true,
                },
            ],
    {
        [
            FootprintStudy::NPoC { lookback: 80 },
            FootprintStudy::Imbalance {
                threshold: 200,
                color_scale: Some(400),
                ignore_zeros: true,
            },
        ]
    }

    /// The name of the study as a menu shows it.
    pub open spec fn label(self) -> Seq<char> {
        match self {
            FootprintStudy::NPoC { .. } => "Naked Point of Control"@,
            FootprintStudy::Imbalance { .. } => "Imbalance"@,
        }
    }

    /// The name of the study as a menu shows it.
    pub fn to_string(&self) -> (name: String)
        ensures
            name@ == self.label(),
    {
        match self {
            FootprintStudy::NPoC { .. } => "Naked Point of Control".to_owned(),
            FootprintStudy::Imbalance { .. } => "Imbalance".to_owned(),
        }
    }
}

} // verus!
