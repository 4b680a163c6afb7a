//! The short position data object, the snapshot of the positions that are
//! alive for a company, and the check of the responses of the CNMV's site.

use crate::calendar::now;
use crate::domain::errors::{CnmvError, DataProviderError};
use crate::text::{contains, matches_pattern, occurs_in, pattern_match};
use vstd::prelude::*;
use vstd::std_specs::cmp::PartialEqSpecImpl;

verus! {

/// A percentage over the capitalization of a company.
///
/// The value is kept as the bits of its IEEE 754 single precision encoding,
/// so that it can be stored and compared exactly. Two weights are the same
/// when their encodings are.
#[derive(Clone, Copy, Debug, PartialEq, Eq, Structural)]
pub struct Weight {
    /// Encoding of the percentage.
    pub bits: u32,
}

impl Weight {
    /// The weight of no position at all: the encoding of zero.
    pub fn zero() -> (weight: Weight)
        ensures
            weight.bits == 0,
    {
        Weight { bits: 0 }
    }

    /// The weight with the given encoding.
    pub fn from_bits(bits: u32) -> (weight: Weight)
        ensures
            weight.bits == bits,
    {
        Weight { bits }
    }
}

/// Wrapper for a `Result` that might contain [`ShortPosition`] entries.
pub type ShortResult = Result<Vec<ShortPosition>, DataProviderError>;

/// Mathematical value of a [`ShortPosition`].
pub struct ShortPositionView {
    pub owner: Seq<char>,
    pub weight: Weight,
    pub open_date: i64,
    pub ticker: Seq<char>,
}

/// Short position entry.
#[derive(Debug)]
pub struct ShortPosition {
    /// Name of the investment fund that owns the short position.
    pub owner: String,
    /// Share of the company's capitalization sold in short by the owner.
    pub weight: Weight,
    /// Instant in which the short position was stated, in seconds since the
    /// Unix epoch (UTC).
    pub open_date: i64,
    /// The ticker of the asset.
    pub ticker: String,
}

impl View for ShortPosition {
    type V = ShortPositionView;

    open spec fn view(&self) -> ShortPositionView {
        ShortPositionView {
            owner: self.owner@,
            weight: self.weight,
            open_date: self.open_date,
            ticker: self.ticker@,
        }
    }
}

impl ShortPositionView {
    /// Two entries describe the same position when the same owner holds them
    /// against the same asset; weight and date may differ.
    pub open spec fn same_position(self, other: ShortPositionView) -> bool {
        self.owner == other.owner && self.ticker == other.ticker
    }
}

impl PartialEq for ShortPosition {
    fn eq(&self, other: &ShortPosition) -> (equal: bool) {
        self.owner == other.owner && self.weight == other.weight && self.open_date
            == other.open_date && self.ticker == other.ticker
    }
}

impl PartialEqSpecImpl for ShortPosition {
    open spec fn obeys_eq_spec() -> bool {
        true
    }

    open spec fn eq_spec(&self, other: &ShortPosition) -> bool {
        self@ == other@
    }
}

impl Clone for ShortPosition {
    fn clone(&self) -> (copy: ShortPosition)
        ensures
            copy@ == self@,
    {
        ShortPosition {
            owner: self.owner.clone(),
            weight: self.weight,
            open_date: self.open_date,
            ticker: self.ticker.clone(),
        }
    }
}

impl Default for ShortPosition {
    fn default() -> (position: ShortPosition)
        ensures
            position@ == (ShortPositionView {
                owner: Seq::empty(),
                weight: Weight { bits: 0 },
                open_date: 0,
                ticker: Seq::empty(),
            }),
    {
        ShortPosition {
            owner: String::new(),
            weight: Weight::zero(),
            open_date: 0,
            ticker: String::new(),
        }
    }
}

impl ShortPosition {
    /// Tells whether `self` and `other` describe the same position.
    pub fn same_position(&self, other: &ShortPosition) -> (same: bool)
        ensures
            same == self@.same_position(other@),
    {
        self.owner == other.owner && self.ticker == other.ticker
    }
}

/// Container of the active short positions of a company.
///
/// It is alike to the table shown in the web page when checking for the
/// short positions of a company.
#[derive(Debug)]
pub struct AliveShortPositions {
    /// Summation of the weights of all the active positions of the company.
    pub total: Weight,
    /// Collection of active positions of the company.
    pub positions: Vec<ShortPosition>,
    /// Timestamp of the snapshot, in seconds since the Unix epoch (UTC).
    pub date: i64,
}

impl AliveShortPositions {
    /// Constructor: a snapshot without positions, taken now.
    pub fn new() -> (snapshot: AliveShortPositions)
        ensures
            snapshot.total.bits == 0,
            snapshot.positions@.len() == 0,
    {
        AliveShortPositions::taken_at(now())
    }

    /// A snapshot without positions, taken at the given instant, in seconds
    /// since the Unix epoch (UTC).
    pub fn taken_at(date: i64) -> (snapshot: AliveShortPositions)
        ensures
            snapshot.total.bits == 0,
            snapshot.positions@.len() == 0,
            snapshot.date == date,
    {
        AliveShortPositions { total: Weight::zero(), positions: Vec::new(), date }
    }
}

impl Default for AliveShortPositions {
    fn default() -> (snapshot: AliveShortPositions)
        ensures
            snapshot.total.bits == 0,
            snapshot.positions@.len() == 0,
    {
        AliveShortPositions::new()
    }
}

/// Marker of the page that the site serves when it fails to process a request.
pub const FAILURE_MARKER: &'static str = "No ha sido posible completar su consulta";

/// Marker of a page without short positions.
pub const NO_DATA_MARKER: &'static str = "No se han encontrado datos disponibles";

/// Marker of the link to the historical series of a company.
pub const HISTORIC_MARKER: &'static str = "Serie hist\u{f3}rica";

/// Regular expression for the shape of the identifier of a security
/// (ISIN): two capital letters from A to Z, which name the country, and ten
/// decimal digits after them.
pub const ISIN_PATTERN: &'static str = "[A-Z]{2}(\\d){10}";

/// What a response of the site stands for.
#[derive(Clone, Copy, Debug, PartialEq, Eq, Structural)]
pub enum PageKind {
    /// A page of a company, with or without short positions.
    Company,
    /// The site failed to process the request.
    ExternalFailure,
    /// The site does not know the company.
    UnknownCompany,
}

/// The kind of a page, given which markers it holds and what the search
/// for an ISIN answered.
///
/// A page with the marker of a failure is a failure, whatever else it
/// holds. A page without data is the page of a company when it links to the
/// historical series or holds an ISIN; the ISIN counts only when the search
/// answered that it is there. Any other page without data is the one of an
/// unknown company, and every page with data is the page of a company.
pub open spec fn kind_of(
    failure: bool,
    no_data: bool,
    historic: bool,
    isin: Option<bool>,
) -> PageKind {
    if failure {
        PageKind::ExternalFailure
    } else if !no_data || historic || isin == Some(true) {
        PageKind::Company
    } else {
        PageKind::UnknownCompany
    }
}

/// The kind of the page with the given body.
pub open spec fn classification(body: Seq<char>) -> PageKind {
    kind_of(
        occurs_in(FAILURE_MARKER@, body),
        occurs_in(NO_DATA_MARKER@, body),
        occurs_in(HISTORIC_MARKER@, body),
        pattern_match(ISIN_PATTERN@, body),
    )
}

/// Decides what a page stands for from the markers found in it. `isin` is the
/// answer of the search for an ISIN, `None` when the search could not be
/// made: then no ISIN was found.
pub fn page_kind(failure: bool, no_data: bool, historic: bool, isin: Option<bool>) -> (v: PageKind)
    ensures
        v == kind_of(failure, no_data, historic, isin),
{
    if failure {
        return PageKind::ExternalFailure;
    }
    if !no_data || historic {
        return PageKind::Company;
    }
    match isin {
        Some(true) => PageKind::Company,
        Some(false) => PageKind::UnknownCompany,
        None => PageKind::UnknownCompany,
    }
}

/// A response of the site that was checked to be the page of a company.
#[derive(Debug)]
pub struct ShortResponse(String);

/// `checked` is the outcome of the check of the page with the given body:
/// the page itself when it is the page of a company, and the error of its
/// kind otherwise.
pub open spec fn checked_as(body: Seq<char>, checked: Result<ShortResponse, CnmvError>) -> bool {
    match checked {
        Ok(page) => classification(body) == PageKind::Company && page@ == body,
        Err(CnmvError::ExternalError(reason)) => classification(body) == PageKind::ExternalFailure
            && reason@ == "The request could be processed by the external server"@,
        Err(CnmvError::UnknownCompany) => classification(body) == PageKind::UnknownCompany,
        Err(_) => false,
    }
}

impl View for ShortResponse {
    type V = Seq<char>;

    closed spec fn view(&self) -> Seq<char> {
        self.0@
    }
}

impl ShortResponse {
    /// Checks whether a response of the site holds valid content.
    ///
    /// The response is accepted, and kept as it is, exactly when it is the
    /// page of a company. Any other kind of page has its error.
    pub fn parse(s: String) -> (checked: Result<ShortResponse, CnmvError>)
        ensures
            checked_as(s@, checked),
    {
        let failure = contains(s.as_str(), FAILURE_MARKER);
        let no_data = !failure && contains(s.as_str(), NO_DATA_MARKER);
        let historic = no_data && contains(s.as_str(), HISTORIC_MARKER);
        let isin = if no_data && !historic {
            matches_pattern(ISIN_PATTERN, s.as_str())
        } else {
            None
        };
        match page_kind(failure, no_data, historic, isin) {
            PageKind::Company => Ok(ShortResponse(s)),
            PageKind::ExternalFailure => Err(
                CnmvError::ExternalError(
                    "The request could be processed by the external server".to_owned(),
                ),
            ),
            PageKind::UnknownCompany => Err(CnmvError::UnknownCompany),
        }
    }

    /// The body of the response, which is the page of a company: no other
    /// response is ever kept.
    pub fn as_ref(&self) -> (body: &str)
        ensures
            body@ == self@,
            classification(body@) == PageKind::Company,
    {
        proof {
            use_type_invariant(self);
        }
        self.0.as_str()
    }

    /// Only the page of a company is kept as a checked response.
    #[verifier::type_invariant]
    spec fn is_accepted(&self) -> bool {
        classification(self.0@) == PageKind::Company
    }
}

/// Classifying the same body twice gives the same: two outcomes of the check
/// of one body are both the page with that body, or both the same error
/// with the same reason. The body that an accepted page keeps is accepted
/// again.
pub proof fn lemma_classification_is_stable(
    body: Seq<char>,
    first: Result<ShortResponse, CnmvError>,
    second: Result<ShortResponse, CnmvError>,
)
    requires
        checked_as(body, first),
        checked_as(body, second),
    ensures
        match (first, second) {
            (Ok(one), Ok(other)) => one@ == other@ && classification(one@) == PageKind::Company,
            (
                Err(CnmvError::ExternalError(one)),
                Err(CnmvError::ExternalError(other)),
            ) => one@ == other@,
            (Err(CnmvError::UnknownCompany), Err(CnmvError::UnknownCompany)) => true,
            _ => false,
        },
{
}

} // verus!
