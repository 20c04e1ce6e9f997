//! What a chart holds for one interval of time.

pub mod bins;
pub mod kline;
