//! The shape of an imported daily market-data response.
//!
//! The surrounding application performs the network fetch and hands the
//! decoded response over as plain pairs of a date string and the day's price
//! fields; only the closing price is consumed.

use vstd::prelude::*;

verus! {

/// A daily time series: one entry per date string, in no particular order.
pub struct StockData {
    pub time_series: Vec<(String, DailyPrice)>,
}

/// The five textual price fields of one trading day.
pub struct DailyPrice {
    pub open: String,
    pub high: String,
    pub low: String,
    pub close: String,
    pub volume: String,
}

} // verus!
