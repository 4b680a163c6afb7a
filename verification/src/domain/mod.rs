//! Data objects shared by the scrapers and the feeders.

pub mod company;
pub mod errors;
pub mod short_position;

pub use company::Company;
pub use errors::{CnmvError, DataProviderError, DbError};
pub use short_position::{
    AliveShortPositions,
    ShortPosition,
    ShortResponse,
    ShortResult,
    PageKind,
    Weight,
};
