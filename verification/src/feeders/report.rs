//! The report of a run over the companies of the listing.

use crate::domain::errors::{CnmvError, DataProviderError};
use vstd::prelude::*;

verus! {

/// A company that could not be brought up to date.
#[derive(Debug, PartialEq, Eq)]
pub struct Failure {
    /// Ticker of the company.
    pub ticker: String,
    /// Why it failed.
    pub error: DataProviderError,
}

/// What a run found, company by company.
#[derive(Debug, PartialEq, Eq)]
pub struct RunReport {
    /// Tickers of the companies whose alive positions changed, in the order
    /// of the run.
    pub updated: Vec<String>,
    /// The companies that failed, in the order of the run.
    pub failed: Vec<Failure>,
}

/// What became of a company in a run.
#[derive(Clone, Copy, Debug, PartialEq, Eq, Structural)]
pub enum Entry {
    /// Nothing is reported of the company.
    Nothing,
    /// The company is listed among those that changed.
    Updated,
    /// The company is listed among those that failed.
    Failed,
}

/// Where the outcome of a company goes. A company that changed is listed
/// as updated, one that did not change is not listed at all. A company
/// without the identifier that the regulator asks for is passed over in
/// silence; any other failure is listed.
pub open spec fn entry_for(outcome: Result<bool, DataProviderError>) -> Entry {
    match outcome {
        Ok(true) => Entry::Updated,
        Ok(false) => Entry::Nothing,
        Err(DataProviderError::Cnmv(CnmvError::MissingIsin)) => Entry::Nothing,
        Err(_) => Entry::Failed,
    }
}

/// The tickers of a list, as texts.
pub open spec fn tickers_view(tickers: Vec<String>) -> Seq<Seq<char>> {
    tickers@.map_values(|ticker: String| ticker@)
}

impl RunReport {
    /// The report of a run that has seen no company yet.
    pub fn new() -> (report: RunReport)
        ensures
            report.updated@.len() == 0,
            report.failed@.len() == 0,
    {
        RunReport { updated: Vec::new(), failed: Vec::new() }
    }

    /// Takes note of the outcome of a company: whether its alive positions
    /// changed, or why it could not be brought up to date, and tells where
    /// the company was listed. The failure of a company never touches what
    /// was noted of the others.
    pub fn record(&mut self, ticker: &str, outcome: Result<bool, DataProviderError>) -> (noted:
        Entry)
        ensures
            noted == entry_for(outcome),
            match entry_for(outcome) {
                Entry::Nothing => *final(self) == *old(self),
                Entry::Updated => tickers_view(final(self).updated) == tickers_view(
                    old(self).updated,
                ).push(ticker@) && final(self).failed == old(self).failed,
                Entry::Failed => final(self).updated == old(self).updated && final(self).failed@.len()
                    == old(self).failed@.len() + 1 && final(self).failed@.drop_last() == old(
                    self,
                ).failed@ && final(self).failed@.last().ticker@ == ticker@ && Err::<
                    bool,
                    DataProviderError,
                >(final(self).failed@.last().error) == outcome,
            },
    {
        match outcome {
            Ok(true) => {
                let ghost before = tickers_view(self.updated);
                self.updated.push(ticker.to_owned());
                assert(tickers_view(self.updated) =~= before.push(ticker@));
                Entry::Updated
            },
            Ok(false) => Entry::Nothing,
            Err(DataProviderError::Cnmv(CnmvError::MissingIsin)) => Entry::Nothing,
            Err(error) => {
                let ghost before = self.failed@;
                self.failed.push(Failure { ticker: ticker.to_owned(), error });
                assert(self.failed@.drop_last() =~= before);
                Entry::Failed
            },
        }
    }
}

} // verus!
