//! Handlers that extract data from web sites.

pub mod cnmv_scrapper;
pub mod page;
