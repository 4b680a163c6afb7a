//! The companies whose short positions are followed.

use vstd::prelude::*;

verus! {

/// A company listed in the IBEX35.
#[derive(Debug, PartialEq, Eq)]
pub struct Company {
    /// Legal name of the company.
    pub full_name: Option<String>,
    /// Most common name of the company.
    pub name: String,
    /// Ticker of the company in the exchange.
    pub ticker: String,
    /// International identifier of the company's shares.
    pub isin: String,
    /// Identifier of the company in the Spanish registry (NIF). Companies
    /// registered abroad have none.
    pub extra_id: Option<String>,
}

} // verus!
