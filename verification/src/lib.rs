//! Time-bucketed aggregation of trades and candles for real-time charting.
//!
//! Trades and candles come in already decoded. A [`aggr::time::TimeSeries`]
//! keeps one bucket for each interval of time, keyed by the time at which the
//! interval starts. A candle bucket holds the candle and a footprint: what was
//! bought and sold at each price level of the interval, with the level that
//! traded most, the point of control.
//!
//! Prices are whole counts of atomic units and quantities are whole counts of
//! quantity units, so that every sum and every comparison is exact; neither
//! is ever a fraction. Sums that would pass the greatest count are held
//! there.
//!
//! - [`price`]: prices, the price step, and rounding to it.
//! - [`market`]: trades, candles, and the width of a bucket.
//! - [`chart::kline`]: price bins, footprints, points of control and candle
//!   buckets.
//! - [`chart::bins`]: the hash map that holds the bins of a footprint.
//! - [`aggr::time`]: the series and what it answers.
//! - [`aggr::ordered`]: walking the buckets of a series in order.
//! - [`aggr::routing`]: what a batch of trades does to a series.
//! - [`aggr::npoc`]: whether price has come back to a point of control.
//! - [`aggr::gap`]: the gap in the trades of a series and what to fetch.
//! - [`i18n`] and [`modal::setting_window`]: the language of the interface
//!   and the messages of the settings window.

pub mod aggr;
pub mod chart;
pub mod i18n;
pub mod market;
pub mod modal;
pub mod price;
