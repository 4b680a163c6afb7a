//! Feeder of the record of short positions against the companies of the
//! IBEX35.
//!
//! The record is made of two tables. The historic table holds one row for
//! each statement of a short position that was ever seen, under an identity
//! token. The table of alive positions holds the tokens of the statements
//! that are in force. The data base cannot delete rows of such a table, so
//! a position leaves the alive ones when its token is overwritten with a
//! void token.

use crate::domain::company::Company;
use crate::domain::errors::DbError;
use crate::domain::short_position::{ShortPosition, ShortPositionView, Weight};
use crate::web_scrappers::cnmv_scrapper::{positions_view, CnmvProvider};
use crate::text::text_view;
use vstd::prelude::*;

verus! {

/// Token written over the token of a position that is no longer alive.
pub const VOID_TOKEN: u128 = 0;

/// Mirror of a row of the listing of the IBEX35 in the data base.
#[derive(Debug)]
pub struct IbexCompanyBd {
    pub full_name: Option<String>,
    pub name: Option<String>,
    pub ticker: Option<String>,
    pub isin: Option<String>,
    pub extra_id: Option<String>,
}

/// Mirror of an alive position as the data base gives it: the token in the
/// table of alive positions, and the fields of the historic row with that
/// token.
#[derive(Debug)]
pub struct ShortPositionBd {
    pub id: Option<u128>,
    pub owner: Option<String>,
    pub ticker: Option<String>,
    pub weight: Option<Weight>,
    pub open_date: Option<i64>,
}

/// Mathematical value of a [`ShortPositionBd`].
pub struct StoredView {
    pub id: Option<u128>,
    pub owner: Option<Seq<char>>,
    pub ticker: Option<Seq<char>>,
    pub weight: Option<Weight>,
    pub open_date: Option<i64>,
}

impl View for ShortPositionBd {
    type V = StoredView;

    open spec fn view(&self) -> StoredView {
        StoredView {
            id: self.id,
            owner: text_view(self.owner),
            ticker: text_view(self.ticker),
            weight: self.weight,
            open_date: self.open_date,
        }
    }
}

/// Mathematical value of a list of stored rows.
pub open spec fn stored_view(rows: Vec<ShortPositionBd>) -> Seq<StoredView> {
    rows@.map_values(|row: ShortPositionBd| row@)
}

/// The field that a stored row lacks.
pub enum MissingField {
    Owner,
    Weight,
    OpenDate,
    Ticker,
}

impl StoredView {
    /// The position that the row states, or the first field that it lacks,
    /// looked for in the order owner, weight, date, ticker.
    pub open spec fn hydrated(self) -> Result<ShortPositionView, MissingField> {
        if self.owner is None {
            Err(MissingField::Owner)
        } else if self.weight is None {
            Err(MissingField::Weight)
        } else if self.open_date is None {
            Err(MissingField::OpenDate)
        } else if self.ticker is None {
            Err(MissingField::Ticker)
        } else {
            Ok(
                ShortPositionView {
                    owner: self.owner->0,
                    weight: self.weight->0,
                    open_date: self.open_date->0,
                    ticker: self.ticker->0,
                },
            )
        }
    }

    /// The row states exactly `position`: owner, weight, date and ticker.
    pub open spec fn states(self, position: ShortPositionView) -> bool {
        self.hydrated() == Ok::<ShortPositionView, MissingField>(position)
    }

    /// The row is the one of `position`: same owner against the same asset.
    pub open spec fn holds(self, position: ShortPositionView) -> bool {
        self.owner == Some(position.owner) && self.ticker == Some(position.ticker)
    }
}

/// The text of the error for a missing field.
pub open spec fn missing_text(field: MissingField) -> Seq<char> {
    match field {
        MissingField::Owner => "Missing owner"@,
        MissingField::Weight => "Missing weight"@,
        MissingField::OpenDate => "Missing open date"@,
        MissingField::Ticker => "Missing ticker"@,
    }
}

/// `result` reports that a stored row lacks `field`.
pub open spec fn reports_missing<T>(result: Result<T, DbError>, field: MissingField) -> bool {
    result matches Err(DbError::MissingStockInfo(text)) && text@ == missing_text(field)
}

impl ShortPosition {
    /// Builds the position that a stored row states.
    ///
    /// A row that lacks a field is corrupt, and gives
    /// [`DbError::MissingStockInfo`] with the name of the first field that
    /// it lacks.
    pub fn try_from(value: &ShortPositionBd) -> (position: Result<ShortPosition, DbError>)
        ensures
            match value@.hydrated() {
                Ok(stated) => position matches Ok(built) && built@ == stated,
                Err(field) => reports_missing(position, field),
            },
    {
        let owner = match &value.owner {
            Some(owner) => owner.clone(),
            None => {
                return Err(DbError::MissingStockInfo("Missing owner".to_owned()));
            },
        };
        let weight = match value.weight {
            Some(weight) => weight,
            None => {
                return Err(DbError::MissingStockInfo("Missing weight".to_owned()));
            },
        };
        let open_date = match value.open_date {
            Some(open_date) => open_date,
            None => {
                return Err(DbError::MissingStockInfo("Missing open date".to_owned()));
            },
        };
        let ticker = match &value.ticker {
            Some(ticker) => ticker.clone(),
            None => {
                return Err(DbError::MissingStockInfo("Missing ticker".to_owned()));
            },
        };
        Ok(ShortPosition { owner, weight, open_date, ticker })
    }
}

impl Company {
    /// Builds the company that a row of the listing describes.
    ///
    /// The legal name and the NIF are optional. A row without name, ticker
    /// or ISIN gives [`DbError::MissingStockInfo`] with the name of the
    /// first of them that it lacks.
    pub fn try_from(value: &IbexCompanyBd) -> (company: Result<Company, DbError>)
        ensures
            match company {
                Ok(built) => describes(*value, built),
                Err(DbError::MissingStockInfo(text)) => if value.name is None {
                    text@ == "Missing name"@
                } else if value.ticker is None {
                    text@ == "Missing ticker"@
                } else {
                    value.isin is None && text@ == "Missing ISIN"@
                },
                Err(_) => false,
            },
    {
        let name = match &value.name {
            Some(name) => name.clone(),
            None => {
                return Err(DbError::MissingStockInfo("Missing name".to_owned()));
            },
        };
        let ticker = match &value.ticker {
            Some(ticker) => ticker.clone(),
            None => {
                return Err(DbError::MissingStockInfo("Missing ticker".to_owned()));
            },
        };
        let isin = match &value.isin {
            Some(isin) => isin.clone(),
            None => {
                return Err(DbError::MissingStockInfo("Missing ISIN".to_owned()));
            },
        };
        let full_name = match &value.full_name {
            Some(full_name) => Some(full_name.clone()),
            None => None,
        };
        let extra_id = match &value.extra_id {
            Some(extra_id) => Some(extra_id.clone()),
            None => None,
        };
        Ok(Company { full_name, name, ticker, isin, extra_id })
    }
}

/// A change of the record of alive positions.
#[derive(Debug, PartialEq)]
pub enum Mutation {
    /// A position that was not alive is stated for the first time.
    Insert(ShortPosition),
    /// The alive position with the token `active` is stated anew.
    Update { active: u128, position: ShortPosition },
    /// The alive position with the given token is no longer stated.
    Retire(u128),
}

/// Mathematical value of a [`Mutation`].
pub enum MutationView {
    Insert(ShortPositionView),
    Update { active: u128, position: ShortPositionView },
    Retire(u128),
}

impl View for Mutation {
    type V = MutationView;

    open spec fn view(&self) -> MutationView {
        match self {
            Mutation::Insert(position) => MutationView::Insert(position@),
            Mutation::Update { active, position } => MutationView::Update {
                active: *active,
                position: position@,
            },
            Mutation::Retire(id) => MutationView::Retire(*id),
        }
    }
}

/// Mathematical value of a list of mutations.
pub open spec fn mutations_view(mutations: Vec<Mutation>) -> Seq<MutationView> {
    mutations@.map_values(|mutation: Mutation| mutation@)
}

/// Some stored row states exactly `position`.
pub open spec fn is_known(position: ShortPositionView, stored: Seq<StoredView>) -> bool {
    exists|j: int| 0 <= j < stored.len() && #[trigger] stored[j].states(position)
}

/// Index of the first stored row that holds `position`.
pub open spec fn first_held(stored: Seq<StoredView>, position: ShortPositionView) -> Option<int>
    decreases stored.len(),
{
    if stored.len() == 0 {
        None
    } else {
        match first_held(stored.drop_last(), position) {
            Some(j) => Some(j),
            None => if stored.last().holds(position) {
                Some(stored.len() - 1)
            } else {
                None
            },
        }
    }
}

/// The write that `position` asks for: none when it is known; an update of
/// the first stored row that holds it, when that row has a token; else an
/// insertion.
pub open spec fn write_for(position: ShortPositionView, stored: Seq<StoredView>) -> Option<
    MutationView,
> {
    if is_known(position, stored) {
        None
    } else {
        match first_held(stored, position) {
            Some(j) if stored[j].id is Some => Some(
                MutationView::Update { active: stored[j].id->0, position },
            ),
            _ => Some(MutationView::Insert(position)),
        }
    }
}

/// The writes that the current positions ask for, in their order.
pub open spec fn writes(current: Seq<ShortPositionView>, stored: Seq<StoredView>) -> Seq<
    MutationView,
>
    decreases current.len(),
{
    if current.len() == 0 {
        Seq::empty()
    } else {
        match write_for(current.last(), stored) {
            Some(mutation) => writes(current.drop_last(), stored).push(mutation),
            None => writes(current.drop_last(), stored),
        }
    }
}

/// No current position is the one of the stored row.
pub open spec fn is_dropped(row: StoredView, current: Seq<ShortPositionView>) -> bool {
    forall|i: int| 0 <= i < current.len() ==> !row.holds(#[trigger] current[i])
}

/// The retirements of the stored rows that were dropped, in their order.
/// A dropped row without token cannot be retired.
pub open spec fn retirements(stored: Seq<StoredView>, current: Seq<ShortPositionView>) -> Seq<
    MutationView,
>
    decreases stored.len(),
{
    if stored.len() == 0 {
        Seq::empty()
    } else if is_dropped(stored.last(), current) && stored.last().id is Some {
        retirements(stored.drop_last(), current).push(MutationView::Retire(stored.last().id->0))
    } else {
        retirements(stored.drop_last(), current)
    }
}

/// The indexes of the stored rows that were dropped and have no token.
pub open spec fn unidentified(stored: Seq<StoredView>, current: Seq<ShortPositionView>) -> Seq<
    usize,
>
    decreases stored.len(),
{
    if stored.len() == 0 {
        Seq::empty()
    } else if is_dropped(stored.last(), current) && stored.last().id is None {
        unidentified(stored.drop_last(), current).push((stored.len() - 1) as usize)
    } else {
        unidentified(stored.drop_last(), current)
    }
}

/// The field that the first corrupt stored row lacks.
pub open spec fn first_corrupt(stored: Seq<StoredView>) -> Option<MissingField>
    decreases stored.len(),
{
    if stored.len() == 0 {
        None
    } else {
        match first_corrupt(stored.drop_last()) {
            Some(field) => Some(field),
            None => match stored.last().hydrated() {
                Err(field) => Some(field),
                Ok(_) => None,
            },
        }
    }
}

/// What a reconciliation found.
#[derive(Debug)]
pub struct Reconciliation {
    /// The changes that bring the record up to date: the writes for the
    /// current positions, then the retirements of the dropped ones.
    pub mutations: Vec<Mutation>,
    /// Indexes of the stored rows that should be retired and have no token.
    pub corrupt: Vec<usize>,
    /// Whether the company is to be listed among those that changed.
    pub changed: bool,
}

/// Whether a company changed: one with nothing stored and nothing current
/// did not; one with only stored or only current positions did; any other
/// did when some mutation is due.
pub open spec fn is_changed(
    current: Seq<ShortPositionView>,
    stored: Seq<StoredView>,
    mutations: Seq<MutationView>,
) -> bool {
    if current.len() == 0 || stored.len() == 0 {
        current.len() + stored.len() > 0
    } else {
        mutations.len() > 0
    }
}

/// The stored rows are read as positions only when there are current
/// positions to compare them with; then a corrupt row stops the
/// reconciliation.
pub open spec fn stopped_by(current: Seq<ShortPositionView>, stored: Seq<StoredView>) -> Option<
    MissingField,
> {
    if current.len() > 0 {
        first_corrupt(stored)
    } else {
        None
    }
}

/// The mutations that bring the stored rows up to the current positions.
pub open spec fn due_mutations(current: Seq<ShortPositionView>, stored: Seq<StoredView>) -> Seq<
    MutationView,
> {
    writes(current, stored) + retirements(stored, current)
}

/// Once a row that holds the position is found among the first rows, the
/// rows that follow do not change which one is the first.
proof fn lemma_first_held_stays(stored: Seq<StoredView>, upto: int, position: ShortPositionView)
    requires
        0 <= upto <= stored.len(),
        first_held(stored.take(upto), position) is Some,
    ensures
        first_held(stored, position) == first_held(stored.take(upto), position),
    decreases stored.len(),
{
    if upto < stored.len() {
        assert(stored.drop_last().take(upto) =~= stored.take(upto));
        lemma_first_held_stays(stored.drop_last(), upto, position);
    } else {
        assert(stored.take(upto) =~= stored);
    }
}

/// Once a corrupt row is found among the first rows, the rows that follow
/// do not change which one is the first.
proof fn lemma_first_corrupt_stays(stored: Seq<StoredView>, upto: int)
    requires
        0 <= upto <= stored.len(),
        first_corrupt(stored.take(upto)) is Some,
    ensures
        first_corrupt(stored) == first_corrupt(stored.take(upto)),
    decreases stored.len(),
{
    if upto < stored.len() {
        assert(stored.drop_last().take(upto) =~= stored.take(upto));
        lemma_first_corrupt_stays(stored.drop_last(), upto);
    } else {
        assert(stored.take(upto) =~= stored);
    }
}

/// Tells whether a text that may be missing is there and is the given one.
fn is_some_text(text: &Option<String>, expected: &String) -> (same: bool)
    ensures
        same == (text_view(*text) == Some(expected@)),
{
    match text {
        Some(text) => *text == *expected,
        None => false,
    }
}

impl ShortPositionBd {
    /// Tells whether the row states exactly the given position.
    pub fn states(&self, position: &ShortPosition) -> (same: bool)
        ensures
            same == self@.states(position@),
    {
        let weight = match self.weight {
            Some(weight) => weight == position.weight,
            None => false,
        };
        let open_date = match self.open_date {
            Some(open_date) => open_date == position.open_date,
            None => false,
        };
        is_some_text(&self.owner, &position.owner) && weight && open_date && is_some_text(
            &self.ticker,
            &position.ticker,
        )
    }

    /// Tells whether the row is the one of the given position.
    pub fn holds(&self, position: &ShortPosition) -> (same: bool)
        ensures
            same == self@.holds(position@),
    {
        is_some_text(&self.owner, &position.owner) && is_some_text(&self.ticker, &position.ticker)
    }
}

/// Data provider for short positions against stocks that belong to the
/// IBEX35.
///
/// The feeder decides what has to be written in the record; it neither
/// reads nor writes the data base itself.
#[derive(Debug)]
pub struct IbexShortFeeder {
    /// Handler of the pages of the regulator.
    pub scrapper: CnmvProvider,
}

impl IbexShortFeeder {
    /// Class constructor.
    pub fn new() -> (feeder: IbexShortFeeder)
        ensures
            feeder.scrapper.base_url() == "https://www.cnmv.es"@,
            feeder.scrapper.short_ext() == "Portal/Consultas/EE/PosicionesCortas.aspx?nif="@,
    {
        IbexShortFeeder { scrapper: CnmvProvider::new() }
    }

    /// Builds the companies that the rows of the listing describe.
    ///
    /// The first row that lacks a field stops the listing with
    /// [`DbError::Unknown`].
    pub fn stock_listing(&self, rows: &Vec<IbexCompanyBd>) -> (companies: Result<
        Vec<Company>,
        DbError,
    >)
        ensures
            match companies {
                Ok(listed) => listed@.len() == rows@.len() && forall|i: int|
                    0 <= i < rows@.len() ==> describes(rows@[i], #[trigger] listed@[i]),
                Err(DbError::Unknown(text)) => text@ == "missing stock information in the DB"@
                    && exists|i: int| 0 <= i < rows@.len() && is_incomplete(#[trigger] rows@[i]),
                Err(_) => false,
            },
            (exists|i: int| 0 <= i < rows@.len() && is_incomplete(#[trigger] rows@[i]))
                ==> companies is Err,
    {
        let mut listed: Vec<Company> = Vec::new();
        let mut i: usize = 0;
        while i < rows.len()
            invariant
                i <= rows.len(),
                listed@.len() == i,
                forall|j: int| 0 <= j < i ==> describes(rows@[j], #[trigger] listed@[j]),
                forall|j: int| 0 <= j < i ==> !is_incomplete(#[trigger] rows@[j]),
            decreases rows.len() - i,
        {
            match Company::try_from(&rows[i]) {
                Ok(company) => {
                    listed.push(company);
                },
                Err(error) => {
                    assert(is_incomplete(rows@[i as int]));
                    return Err(DbError::Unknown(error.message().to_owned()));
                },
            }
            i += 1;
        }
        Ok(listed)
    }

    /// Finds the alive position of an owner against an asset: the first
    /// stored row with that ticker and that owner.
    pub fn active_position(&self, stored: &Vec<ShortPositionBd>, position: &ShortPosition) -> (found:
        Option<usize>)
        ensures
            match found {
                Some(j) => first_held(stored_view(*stored), position@) == Some(j as int) && j
                    < stored@.len(),
                None => first_held(stored_view(*stored), position@) is None,
            },
    {
        let ghost all = stored_view(*stored);
        let mut i: usize = 0;
        while i < stored.len()
            invariant
                i <= stored.len(),
                all == stored_view(*stored),
                first_held(all.take(i as int), position@) is None,
            decreases stored.len() - i,
        {
            proof {
                assert(all.take(i + 1).drop_last() =~= all.take(i as int));
                assert(all.take(i + 1).last() == stored@[i as int]@);
            }
            if stored[i].holds(position) {
                proof {
                    lemma_first_held_stays(all, i + 1, position@);
                }
                return Some(i);
            }
            i += 1;
        }
        proof {
            assert(all.take(stored.len() as int) =~= all);
        }
        None
    }
}

/// The row of the listing lacks something that a company needs.
pub open spec fn is_incomplete(row: IbexCompanyBd) -> bool {
    row.name is None || row.ticker is None || row.isin is None
}

/// The company is the one that the row of the listing describes.
pub open spec fn describes(row: IbexCompanyBd, company: Company) -> bool {
    &&& text_view(row.name) == Some(company.name@)
    &&& text_view(row.ticker) == Some(company.ticker@)
    &&& text_view(row.isin) == Some(company.isin@)
    &&& text_view(row.full_name) == text_view(company.full_name)
    &&& text_view(row.extra_id) == text_view(company.extra_id)
}

/// Tells whether some stored row states exactly the given position.
pub fn is_already_stored(position: &ShortPosition, stored: &Vec<ShortPositionBd>) -> (known: bool)
    ensures
        known == is_known(position@, stored_view(*stored)),
{
    let mut j: usize = 0;
    while j < stored.len()
        invariant
            j <= stored.len(),
            forall|k: int| 0 <= k < j ==> !(#[trigger] stored_view(*stored)[k]).states(position@),
        decreases stored.len() - j,
    {
        if stored[j].states(position) {
            assert(stored_view(*stored)[j as int].states(position@));
            return true;
        }
        j += 1;
    }
    false
}

/// Tells whether no current position is the one of the stored row.
pub fn is_no_longer_stated(row: &ShortPositionBd, current: &Vec<ShortPosition>) -> (dropped: bool)
    ensures
        dropped == is_dropped(row@, positions_view(*current)),
{
    let mut i: usize = 0;
    while i < current.len()
        invariant
            i <= current.len(),
            forall|k: int| 0 <= k < i ==> !row@.holds(#[trigger] positions_view(*current)[k]),
        decreases current.len() - i,
    {
        if row.holds(&current[i]) {
            assert(row@.holds(positions_view(*current)[i as int]));
            return false;
        }
        i += 1;
    }
    true
}

/// Looks for the first stored row that lacks a field of a position.
fn check_stored(stored: &Vec<ShortPositionBd>) -> (checked: Result<(), DbError>)
    ensures
        match first_corrupt(stored_view(*stored)) {
            Some(field) => reports_missing(checked, field),
            None => checked is Ok,
        },
{
    let ghost all = stored_view(*stored);
    let mut j: usize = 0;
    while j < stored.len()
        invariant
            j <= stored.len(),
            all == stored_view(*stored),
            first_corrupt(all.take(j as int)) is None,
        decreases stored.len() - j,
    {
        proof {
            assert(all.take(j + 1).drop_last() =~= all.take(j as int));
            assert(all.take(j + 1).last() == stored@[j as int]@);
        }
        match ShortPosition::try_from(&stored[j]) {
            Ok(_) => {},
            Err(error) => {
                proof {
                    lemma_first_corrupt_stays(all, j + 1);
                }
                return Err(error);
            },
        }
        j += 1;
    }
    proof {
        assert(all.take(stored.len() as int) =~= all);
    }
    Ok(())
}

impl IbexShortFeeder {
    /// Compares the positions that are stated today against a company with
    /// the alive positions that the record holds for it, and gives the
    /// mutations that bring the record up to date.
    ///
    /// A position that some stored row states exactly asks for nothing. Any
    /// other position updates the first stored row of its owner, or is
    /// inserted when there is none (or when that row has no token). Then
    /// each stored row whose owner states no position any more is retired;
    /// those without token cannot be, and are listed as corrupt.
    ///
    /// When there are positions on both sides the stored rows are read as
    /// positions, and the first one that lacks a field stops the
    /// reconciliation with [`DbError::MissingStockInfo`]: nothing is due
    /// then.
    pub fn add_today_data(
        &self,
        new_positions: &Vec<ShortPosition>,
        stored_positions: &Vec<ShortPositionBd>,
    ) -> (outcome: Result<Reconciliation, DbError>)
        ensures
            match stopped_by(positions_view(*new_positions), stored_view(*stored_positions)) {
                Some(field) => reports_missing(outcome, field),
                None => outcome matches Ok(found) && mutations_view(found.mutations)
                    == due_mutations(positions_view(*new_positions), stored_view(*stored_positions))
                    && found.corrupt@ == unidentified(
                    stored_view(*stored_positions),
                    positions_view(*new_positions),
                ) && found.changed == is_changed(
                    positions_view(*new_positions),
                    stored_view(*stored_positions),
                    mutations_view(found.mutations),
                ),
            },
    {
        let ghost current = positions_view(*new_positions);
        let ghost stored = stored_view(*stored_positions);
        if new_positions.len() > 0 {
            match check_stored(stored_positions) {
                Ok(_) => {},
                Err(error) => {
                    return Err(error);
                },
            }
        }
        let mut mutations: Vec<Mutation> = Vec::new();
        let mut i: usize = 0;
        while i < new_positions.len()
            invariant
                i <= new_positions.len(),
                current == positions_view(*new_positions),
                stored == stored_view(*stored_positions),
                mutations_view(mutations) =~= writes(current.take(i as int), stored),
            decreases new_positions.len() - i,
        {
            let position = &new_positions[i];
            proof {
                assert(current.take(i + 1).drop_last() =~= current.take(i as int));
                assert(current.take(i + 1).last() == position@);
            }
            let ghost before = mutations_view(mutations);
            if !is_already_stored(position, stored_positions) {
                let token = match self.active_position(stored_positions, position) {
                    Some(j) => stored_positions[j].id,
                    None => None,
                };
                let mutation = match token {
                    Some(active) => Mutation::Update { active, position: position.clone() },
                    None => Mutation::Insert(position.clone()),
                };
                mutations.push(mutation);
                assert(mutations_view(mutations) =~= before.push(mutation@));
            }
            i += 1;
        }
        proof {
            assert(current.take(new_positions.len() as int) =~= current);
        }
        let mut corrupt: Vec<usize> = Vec::new();
        let mut j: usize = 0;
        while j < stored_positions.len()
            invariant
                j <= stored_positions.len(),
                current == positions_view(*new_positions),
                stored == stored_view(*stored_positions),
                mutations_view(mutations) =~= writes(current, stored) + retirements(
                    stored.take(j as int),
                    current,
                ),
                corrupt@ =~= unidentified(stored.take(j as int), current),
            decreases stored_positions.len() - j,
        {
            let row = &stored_positions[j];
            proof {
                assert(stored.take(j + 1).drop_last() =~= stored.take(j as int));
                assert(stored.take(j + 1).last() == row@);
            }
            let ghost before = mutations_view(mutations);
            if is_no_longer_stated(row, new_positions) {
                match row.id {
                    Some(id) => {
                        mutations.push(Mutation::Retire(id));
                        assert(mutations_view(mutations) =~= before.push(MutationView::Retire(id)));
                    },
                    None => {
                        corrupt.push(j);
                    },
                }
            }
            j += 1;
        }
        proof {
            assert(stored.take(stored_positions.len() as int) =~= stored);
        }
        let changed = if new_positions.len() == 0 || stored_positions.len() == 0 {
            new_positions.len() > 0 || stored_positions.len() > 0
        } else {
            mutations.len() > 0
        };
        Ok(Reconciliation { mutations, corrupt, changed })
    }
}

/// No write is due for positions that are all known.
proof fn lemma_known_positions_ask_nothing(current: Seq<ShortPositionView>, stored: Seq<StoredView>)
    requires
        forall|i: int| 0 <= i < current.len() ==> is_known(#[trigger] current[i], stored),
    ensures
        writes(current, stored) == Seq::<MutationView>::empty(),
    decreases current.len(),
{
    if current.len() > 0 {
        let rest = current.drop_last();
        assert forall|i: int| 0 <= i < rest.len() implies is_known(#[trigger] rest[i], stored) by {
            assert(rest[i] == current[i]);
        }
        lemma_known_positions_ask_nothing(rest, stored);
        assert(is_known(current[current.len() - 1], stored));
    }
}

/// Rows that all state a current position are neither retired nor corrupt.
proof fn lemma_stated_rows_stay(stored: Seq<StoredView>, current: Seq<ShortPositionView>)
    requires
        forall|j: int|
            0 <= j < stored.len() ==> exists|i: int|
                0 <= i < current.len() && (#[trigger] stored[j]).states(#[trigger] current[i]),
    ensures
        retirements(stored, current) == Seq::<MutationView>::empty(),
        unidentified(stored, current) == Seq::<usize>::empty(),
        first_corrupt(stored) is None,
    decreases stored.len(),
{
    if stored.len() > 0 {
        let rest = stored.drop_last();
        assert forall|j: int| 0 <= j < rest.len() implies exists|i: int|
            0 <= i < current.len() && (#[trigger] rest[j]).states(#[trigger] current[i]) by {
            assert(rest[j] == stored[j]);
        }
        lemma_stated_rows_stay(rest, current);
        let last = stored[stored.len() - 1];
        let i = choose|i: int| 0 <= i < current.len() && last.states(#[trigger] current[i]);
        assert(last.holds(current[i]));
    }
}

/// Nothing is written for a company whose record is up to date: when each
/// current position is stated by a stored row and each stored row states a
/// current position, no mutation is due, no row is corrupt, and the company
/// did not change.
pub proof fn lemma_no_spurious_writes(current: Seq<ShortPositionView>, stored: Seq<StoredView>)
    requires
        forall|i: int| 0 <= i < current.len() ==> is_known(#[trigger] current[i], stored),
        forall|j: int|
            0 <= j < stored.len() ==> exists|i: int|
                0 <= i < current.len() && (#[trigger] stored[j]).states(#[trigger] current[i]),
    ensures
        stopped_by(current, stored) is None,
        due_mutations(current, stored) == Seq::<MutationView>::empty(),
        unidentified(stored, current) == Seq::<usize>::empty(),
        !is_changed(current, stored, due_mutations(current, stored)),
{
    lemma_known_positions_ask_nothing(current, stored);
    lemma_stated_rows_stay(stored, current);
    assert(due_mutations(current, stored) =~= Seq::<MutationView>::empty());
    if current.len() == 0 && stored.len() > 0 {
        assert(exists|i: int| 0 <= i < current.len() && (#[trigger] stored[0]).states(#[trigger] current[i]));
    }
    if stored.len() == 0 && current.len() > 0 {
        assert(is_known(current[0], stored));
    }
}

} // verus!
