//! Error types of the library.

use vstd::prelude::*;

verus! {

/// Errors of the CNMV handler.
#[derive(Debug, PartialEq, Eq)]
pub enum CnmvError {
    /// The given company is not recognized by the CNMV's site.
    UnknownCompany,
    /// The CNMV's site failed to serve the request.
    ExternalError(String),
    /// An internal step of the handler failed.
    InternalError(String),
    /// The CNMV identifies companies by their NIF, and the company has none.
    MissingIsin,
    /// The weight of a short position is not a number.
    MalformedNumber,
    /// The date of a short position is not a calendar date, or it has no
    /// single instant in the time zone of the regulator.
    InvalidDate,
}

/// Errors of the record of short positions.
#[derive(Debug, PartialEq, Eq)]
pub enum DbError {
    /// A row of the record lacks a field that the library needs.
    MissingStockInfo(String),
    /// Any other failure of the data base.
    Unknown(String),
}

/// Errors of the providers of short positions: what can go wrong with a
/// company, at the site of the regulator or at the record.
#[derive(Debug, PartialEq, Eq)]
pub enum DataProviderError {
    /// The page of the company could not be had or read.
    Cnmv(CnmvError),
    /// The record of the company could not be read or written.
    Db(DbError),
}

impl DbError {
    /// Short description of the kind of error.
    pub fn message(&self) -> (text: &'static str)
        ensures
            self is MissingStockInfo ==> text@ == "missing stock information in the DB"@,
            self is Unknown ==> text@ == "unknown db error"@,
    {
        match self {
            DbError::MissingStockInfo(_) => "missing stock information in the DB",
            DbError::Unknown(_) => "unknown db error",
        }
    }
}

} // verus!
