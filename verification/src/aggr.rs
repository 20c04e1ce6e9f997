//! Aggregation of trades and candles into buckets.

pub mod gap;
pub mod npoc;
pub mod ordered;
pub mod routing;
pub mod time;
