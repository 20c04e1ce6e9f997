//! Decoded market events and the width of a time bucket.

use crate::price::Price;
use vstd::prelude::*;

verus! {

/// One executed trade.
#[derive(Clone, Copy, Debug, PartialEq)]
pub struct Trade {
    /// When the trade was executed, in milliseconds.
    pub time: u64,
    /// Whether the taker sold.
    pub is_sell: bool,
    pub price: Price,
    /// The traded quantity, in quantity units.
    pub qty: u64,
}

/// One candle: the prices of an interval and what was bought and sold in it.
#[derive(Clone, Copy, Debug, PartialEq)]
pub struct Kline {
    /// The time at which the interval starts, in milliseconds.
    pub time: u64,
    pub open: Price,
    pub high: Price,
    pub low: Price,
    pub close: Price,
    /// Bought and sold volume, in this order.
    pub volume: (u64, u64),
}

/// The width of a time bucket.
#[derive(Clone, Copy, Debug, PartialEq, Eq, Structural, Hash)]
pub enum Timeframe {
    MS100,
    MS200,
    MS300,
    MS500,
    MS1000,
    M1,
    M3,
    M5,
    M15,
    M30,
    H1,
    H2,
    H4,
    H12,
    D1,
}

impl Timeframe {
    /// The width in milliseconds.
    pub open spec fn millis(self) -> u64 {
        match self {
            Timeframe::MS100 => 100,
            Timeframe::MS200 => 200,
            Timeframe::MS300 => 300,
            Timeframe::MS500 => 500,
            Timeframe::MS1000 => 1_000,
            Timeframe::M1 => 60_000,
            Timeframe::M3 => 180_000,
            Timeframe::M5 => 300_000,
            Timeframe::M15 => 900_000,
            Timeframe::M30 => 1_800_000,
            Timeframe::H1 => 3_600_000,
            Timeframe::H2 => 7_200_000,
            Timeframe::H4 => 14_400_000,
            Timeframe::H12 => 43_200_000,
            Timeframe::D1 => 86_400_000,
        }
    }

    /// The width in milliseconds, which is never zero.
    pub fn to_milliseconds(self) -> (ms: u64)
        ensures
            ms == self.millis(),
            ms > 0,
    {
        match self {
            Timeframe::MS100 => 100,
            Timeframe::MS200 => 200,
            Timeframe::MS300 => 300,
            Timeframe::MS500 => 500,
            Timeframe::MS1000 => 1_000,
            Timeframe::M1 => 60_000,
            Timeframe::M3 => 180_000,
            Timeframe::M5 => 300_000,
            Timeframe::M15 => 900_000,
            Timeframe::M30 => 1_800_000,
            Timeframe::H1 => 3_600_000,
            Timeframe::H2 => 7_200_000,
            Timeframe::H4 => 14_400_000,
            Timeframe::H12 => 43_200_000,
            Timeframe::D1 => 86_400_000,
        }
    }
}

/// The start of the bucket of width `ms` that holds `time`.
pub open spec fn bucket_start(time: u64, ms: u64) -> u64 {
    ((time / ms) * ms) as u64
}

/// The start of the bucket of width `ms` that holds `time`.
pub fn bucket_time(time: u64, ms: u64) -> (r: u64)
    requires
        ms > 0,
    ensures
        r == bucket_start(time, ms),
        r <= time,
        r % ms == 0,
        time - r < ms,
{
    proof {
        vstd::arithmetic::div_mod::lemma_fundamental_div_mod(time as int, ms as int);
        vstd::arithmetic::div_mod::lemma_mod_bound(time as int, ms as int);
        vstd::arithmetic::div_mod::lemma_mod_multiples_basic((time / ms) as int, ms as int);
        assert((ms as int) * ((time as int) / (ms as int)) == ((time as int) / (ms as int)) * (
        ms as int)) by (nonlinear_arith);
    }
    (time / ms) * ms
}

} // verus!
