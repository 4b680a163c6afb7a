//! Feeders that push the harvested data to the record.

pub mod alive_set;
pub mod ibex_short_provider;
pub mod listing;
pub mod record;
pub mod report;
