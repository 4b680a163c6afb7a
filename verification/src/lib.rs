//! Harvesting of short position disclosures published by the Spanish market
//! regulator (CNMV) for the companies of the IBEX35, and the bookkeeping that
//! keeps a record of the positions that are currently alive.
//!
//! The modules within [`web_scrappers`] check the pages of the regulator and
//! read the short positions that they state. The modules within [`feeders`]
//! compare what is stated today with what the record holds, and say what has
//! to be written. The library itself neither fetches pages nor touches the
//! data base: it works on the text of a page and on the rows of the record.

use vstd::prelude::*;

pub mod calendar;
pub mod domain;
pub mod feeders;
pub mod text;
pub mod web_scrappers;

pub use domain::{
    AliveShortPositions,
    CnmvError,
    Company,
    DataProviderError,
    DbError,
    ShortPosition,
    ShortResponse,
    ShortResult,
    Weight,
};
pub use feeders::ibex_short_provider::{IbexCompanyBd, IbexShortFeeder, ShortPositionBd};
pub use feeders::report::RunReport;
pub use web_scrappers::cnmv_scrapper::CnmvProvider;

verus! {

/// The time that a request for short positions is about.
#[derive(Debug)]
pub enum TimeFrame {
    /// The positions that are alive.
    Current,
    /// The positions between the given instant, in seconds since the Unix
    /// epoch (UTC), and now.
    Historical(i64),
}

/// Common interface of the collectors of short positions over the stocks
/// of a stock exchange.
///
/// Each market regulator publishes the short positions in its own way, so
/// a collector is tied to the exchange of the stocks that it serves.
pub trait ShortDataProvider {
    /// Checks whether a stock has short positions (for
    /// [`TimeFrame::Current`]), or had any since the given instant (for
    /// [`TimeFrame::Historical`]). A stock without positions gives an empty
    /// list.
    fn get_positions(&self, stock: &Company, time_frame: TimeFrame) -> ShortResult;
}

/// Common interface of the readers of short positions from a source of
/// data.
pub trait ShortDataExtractor {
    /// Reads the short positions of a stock in the given time.
    fn get_positions(&self, stock: &Company, time_frame: TimeFrame) -> ShortResult;
}

} // verus!
