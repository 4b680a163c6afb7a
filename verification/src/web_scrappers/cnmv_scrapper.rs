//! Extraction of data from the web page of the Spanish _Comisión Nacional
//! del Mercado de Valores (CNMV)_.

use crate::calendar::{
    instant_of_local,
    local_instant,
    parse_date,
    parsed_date,
    single_instant,
    the_instant,
};
use crate::domain::company::Company;
use crate::domain::errors::CnmvError;
use crate::domain::short_position::{
    checked_as,
    classification,
    PageKind,
    ShortPosition,
    ShortPositionView,
    ShortResponse,
    Weight,
};
use crate::text::{
    lemma_replaced_is_free,
    lemma_replaced_without,
    replace,
    replaced,
    text_view,
    trim,
    trimmed,
};
use crate::web_scrappers::page::{
    cells_view,
    select_cells,
    selected_cells,
    table_view,
    Cell,
    CellView,
};
use vstd::prelude::*;
use vstd::string::StringExecFns;

verus! {

/// Status code of a response that carries a page.
pub const STATUS_OK: u16 = 200;

/// Selector of the rows of the tables of a page.
pub const ROW_SELECTOR: &'static str = "tr";

/// Selector of the cells of a row.
pub const CELL_SELECTOR: &'static str = "td";

/// Attribute that marks the column of a cell by its alignment.
pub const CLASS_ATTRIBUTE: &'static str = "class";

/// Attribute that holds the header of the column of a cell.
pub const HEADER_ATTRIBUTE: &'static str = "data-th";

/// Class of the cells aligned to the left, which hold the owner of a position.
pub const OWNER_CLASS: &'static str = "Izquierda";

/// Header of the column of the weights.
pub const WEIGHT_HEADER: &'static str = "% sobre el capital";

/// Header of the column of the dates.
pub const DATE_HEADER: &'static str = "Fecha de la posici\u{f3}n";

/// The site writes numbers with this decimal mark.
pub const DECIMAL_COMMA: char = ',';

/// Decimal mark of the numbers that the library hands out.
pub const DECIMAL_POINT: &'static str = ".";

/// The site writes dates as day, month and year.
pub const DATE_FORMAT: &'static str = "%d/%m/%Y";

/// Time zone of the regulator.
pub const TIME_ZONE: &'static str = "Europe/Madrid";

/// Short positions are stated once per day, no later than 15:30.
pub const DISCLOSURE_HOUR: u32 = 15;

/// Minutes of the time of the day at which positions are stated.
pub const DISCLOSURE_MINUTE: u32 = 30;

/// What a row of a table tells about a short position, as text.
#[derive(Debug, PartialEq, Eq)]
pub struct PositionRow {
    /// Owner of the position, when the row names one.
    pub owner: Option<String>,
    /// The numerals of the weight cells of the row, in the order of the
    /// page, written with a decimal point.
    pub weights: Vec<String>,
    /// Text of the date of the position, when the row has one.
    pub date: Option<String>,
}

/// Mathematical value of a [`PositionRow`].
pub struct PositionRowView {
    pub owner: Option<Seq<char>>,
    pub weights: Seq<Seq<char>>,
    pub date: Option<Seq<char>>,
}

impl View for PositionRow {
    type V = PositionRowView;

    open spec fn view(&self) -> PositionRowView {
        PositionRowView {
            owner: text_view(self.owner),
            weights: self.weights@.map_values(|numeral: String| numeral@),
            date: text_view(self.date),
        }
    }
}

/// A row of a table with the values of its numerals.
#[derive(Debug)]
pub struct WeighedRow {
    /// Owner of the position, when the row names one.
    pub owner: Option<String>,
    /// The value of each weight cell of the row, in the order of the page;
    /// `None` for a cell whose text is no number.
    pub weights: Vec<Option<Weight>>,
    /// Text of the date of the position, when the row has one.
    pub date: Option<String>,
}

/// Mathematical value of a [`WeighedRow`].
pub struct WeighedRowView {
    pub owner: Option<Seq<char>>,
    pub weights: Seq<Option<Weight>>,
    pub date: Option<Seq<char>>,
}

impl View for WeighedRow {
    type V = WeighedRowView;

    open spec fn view(&self) -> WeighedRowView {
        WeighedRowView { owner: text_view(self.owner), weights: self.weights@, date: text_view(self.date) }
    }
}

/// What a row gives once its weight and its date are known.
#[derive(Debug, PartialEq)]
pub enum RowOutcome {
    /// The row names no owner: it is a header or a blank row.
    Skipped,
    /// The row states a position.
    Position(ShortPosition),
    /// A weight cell of the row holds no number.
    MalformedNumber,
    /// The row names an owner and its date has no instant.
    InvalidDate,
}

/// Mathematical value of a [`RowOutcome`].
pub enum RowOutcomeView {
    Skipped,
    Position(ShortPositionView),
    MalformedNumber,
    InvalidDate,
}

impl View for RowOutcome {
    type V = RowOutcomeView;

    open spec fn view(&self) -> RowOutcomeView {
        match self {
            RowOutcome::Skipped => RowOutcomeView::Skipped,
            RowOutcome::Position(position) => RowOutcomeView::Position(position@),
            RowOutcome::MalformedNumber => RowOutcomeView::MalformedNumber,
            RowOutcome::InvalidDate => RowOutcomeView::InvalidDate,
        }
    }
}

/// The numeral `text` written with a decimal point.
pub open spec fn decimal_point_numeral(text: Seq<char>) -> Seq<char> {
    replaced(text, DECIMAL_COMMA, DECIMAL_POINT@)
}

/// A row without cells tells nothing.
pub open spec fn blank_row() -> PositionRowView {
    PositionRowView { owner: None, weights: Seq::empty(), date: None }
}

/// What `row` tells once `cell` has been read after it.
///
/// A cell with a class is looked at for the owner only: when it is aligned
/// to the left and has text, its trimmed text is the owner. A cell without
/// class is told by the header of its column: a weight cell adds its
/// numeral (the empty text when the cell has none), a date cell with text
/// sets the date.
pub open spec fn row_with_cell(row: PositionRowView, cell: CellView) -> PositionRowView {
    match cell.class {
        Some(class) => if class == OWNER_CLASS@ && cell.text is Some {
            PositionRowView { owner: Some(trimmed(cell.text->0)), ..row }
        } else {
            row
        },
        None => match cell.header {
            Some(header) => if header == WEIGHT_HEADER@ {
                PositionRowView {
                    weights: row.weights.push(
                        decimal_point_numeral(
                            match cell.text {
                                Some(text) => text,
                                None => Seq::empty(),
                            },
                        ),
                    ),
                    ..row
                }
            } else if header == DATE_HEADER@ && cell.text is Some {
                PositionRowView { date: cell.text, ..row }
            } else {
                row
            },
            None => row,
        },
    }
}

/// What the cells of a row tell, read from the first to the last.
pub open spec fn row_of(cells: Seq<CellView>) -> PositionRowView
    decreases cells.len(),
{
    if cells.len() == 0 {
        blank_row()
    } else {
        row_with_cell(row_of(cells.drop_last()), cells.last())
    }
}

/// The instant at which a position with the given date text was stated:
/// the date read as day, month and year, at the disclosure time in the time
/// zone of the regulator. `None` where there is no text, the text is no
/// date, or the date has no single such instant.
pub open spec fn disclosure_instant(date: Option<Seq<char>>) -> Option<i64> {
    match date {
        None => None,
        Some(text) => match parsed_date(text, DATE_FORMAT@) {
            None => None,
            Some(day) => single_instant(
                local_instant(TIME_ZONE@, day, DISCLOSURE_HOUR, DISCLOSURE_MINUTE, 0),
            ),
        },
    }
}

/// The weight of a row whose cells hold numbers: the last one, and zero for
/// a row without weight cell.
pub open spec fn row_weight(weights: Seq<Option<Weight>>) -> Weight {
    if weights.len() > 0 && weights.last() is Some {
        weights.last()->0
    } else {
        Weight { bits: 0 }
    }
}

/// What a row gives for the company with the given ticker, when `instant`
/// is the instant of its date.
///
/// A weight cell without number spoils the row, whatever else it holds. A
/// row without owner is skipped. A row with an owner needs the instant of
/// its date, and states a position with the last of its weights.
pub open spec fn outcome_of(row: WeighedRowView, instant: Option<i64>, ticker: Seq<char>) -> RowOutcomeView {
    if exists|i: int| 0 <= i < row.weights.len() && row.weights[i] is None {
        RowOutcomeView::MalformedNumber
    } else if row.owner is None {
        RowOutcomeView::Skipped
    } else if instant is None {
        RowOutcomeView::InvalidDate
    } else {
        RowOutcomeView::Position(
            ShortPositionView {
                owner: row.owner->0,
                weight: row_weight(row.weights),
                open_date: instant->0,
                ticker,
            },
        )
    }
}

/// Why a page gives no positions.
pub enum Rejection {
    /// A weight cell holds no number.
    MalformedNumber,
    /// The date of a position has no instant.
    InvalidDate,
}

/// The positions that the rows of a page state for the company with the
/// given ticker, in the order of the page. The first row, from the top,
/// that gives no valid outcome rejects the whole page.
pub open spec fn extracted(rows: Seq<WeighedRowView>, ticker: Seq<char>) -> Result<
    Seq<ShortPositionView>,
    Rejection,
>
    decreases rows.len(),
{
    if rows.len() == 0 {
        Ok(Seq::empty())
    } else {
        match extracted(rows.drop_last(), ticker) {
            Err(rejection) => Err(rejection),
            Ok(positions) => match outcome_of(
                rows.last(),
                disclosure_instant(rows.last().date),
                ticker,
            ) {
                RowOutcomeView::Skipped => Ok(positions),
                RowOutcomeView::Position(position) => Ok(positions.push(position)),
                RowOutcomeView::MalformedNumber => Err(Rejection::MalformedNumber),
                RowOutcomeView::InvalidDate => Err(Rejection::InvalidDate),
            },
        }
    }
}

/// Mathematical value of a list of rows read from a page.
pub open spec fn position_rows_view(rows: Vec<PositionRow>) -> Seq<PositionRowView> {
    rows@.map_values(|row: PositionRow| row@)
}

/// Mathematical value of a list of rows with their weights.
pub open spec fn weighed_rows_view(rows: Vec<WeighedRow>) -> Seq<WeighedRowView> {
    rows@.map_values(|row: WeighedRow| row@)
}

/// Mathematical value of a list of positions.
pub open spec fn positions_view(positions: Vec<ShortPosition>) -> Seq<ShortPositionView> {
    positions@.map_values(|position: ShortPosition| position@)
}

/// Tells whether a text is the given one.
fn is_text(text: &String, expected: &str) -> (same: bool)
    ensures
        same == (text@ == expected@),
{
    let expected = expected.to_owned();
    *text == expected
}

/// Reads what the cells of a row tell about a short position.
pub fn scan_row(cells: &Vec<Cell>) -> (row: PositionRow)
    ensures
        row@ == row_of(cells_view(*cells)),
{
    let mut owner: Option<String> = None;
    let mut weights: Vec<String> = Vec::new();
    let mut date: Option<String> = None;
    let ghost all = cells_view(*cells);
    let mut i: usize = 0;
    while i < cells.len()
        invariant
            i <= cells.len(),
            all == cells_view(*cells),
            row_of(all.take(i as int)).owner == text_view(owner),
            row_of(all.take(i as int)).weights =~= weights@.map_values(|numeral: String| numeral@),
            row_of(all.take(i as int)).date == text_view(date),
        decreases cells.len() - i,
    {
        let cell = &cells[i];
        proof {
            assert(all.take(i + 1).drop_last() =~= all.take(i as int));
            assert(all.take(i + 1).last() == cell@);
        }
        let ghost before = weights@.map_values(|numeral: String| numeral@);
        match &cell.class {
            Some(class) => {
                if is_text(class, OWNER_CLASS) {
                    match &cell.text {
                        Some(text) => {
                            owner = Some(trim(text.as_str()).to_owned());
                        },
                        None => {},
                    }
                }
            },
            None => {
                match &cell.header {
                    Some(header) => {
                        if is_text(header, WEIGHT_HEADER) {
                            let numeral = match &cell.text {
                                Some(text) => replace(text.as_str(), DECIMAL_COMMA, DECIMAL_POINT),
                                None => replace("", DECIMAL_COMMA, DECIMAL_POINT),
                            };
                            proof {
                                reveal_strlit("");
                                assert(""@ =~= Seq::<char>::empty());
                            }
                            weights.push(numeral);
                            assert(weights@.map_values(|numeral: String| numeral@) =~= before.push(
                                numeral@,
                            ));
                        } else if is_text(header, DATE_HEADER) {
                            match &cell.text {
                                Some(text) => {
                                    date = Some(text.clone());
                                },
                                None => {},
                            }
                        }
                    },
                    None => {},
                }
            },
        }
        i += 1;
    }
    proof {
        assert(all.take(cells.len() as int) =~= all);
    }
    PositionRow { owner, weights, date }
}

/// Reads the rows of a table, in their order.
pub fn scan_table(table: &Vec<Vec<Cell>>) -> (rows: Vec<PositionRow>)
    ensures
        position_rows_view(rows) == table_view(*table).map_values(|cells: Seq<CellView>| row_of(cells)),
{
    let mut rows: Vec<PositionRow> = Vec::new();
    let mut i: usize = 0;
    while i < table.len()
        invariant
            i <= table.len(),
            position_rows_view(rows) == table_view(*table).take(i as int).map_values(
                |cells: Seq<CellView>| row_of(cells),
            ),
        decreases table.len() - i,
    {
        let ghost before = position_rows_view(rows);
        let row = scan_row(&table[i]);
        rows.push(row);
        proof {
            assert(position_rows_view(rows) =~= before.push(row@));
            assert(table_view(*table).take(i + 1).map_values(|cells: Seq<CellView>| row_of(cells))
                =~= table_view(*table).take(i as int).map_values(
                |cells: Seq<CellView>| row_of(cells),
            ).push(row@));
        }
        i += 1;
    }
    proof {
        assert(table_view(*table).take(table.len() as int) =~= table_view(*table));
    }
    rows
}

/// Decides what a row gives for the company with the given ticker.
/// `instant` is the instant of the date of the row, `None` when it has none.
pub fn row_outcome(row: &WeighedRow, instant: Option<i64>, ticker: &str) -> (outcome: RowOutcome)
    ensures
        outcome@ == outcome_of(row@, instant, ticker@),
{
    let mut i: usize = 0;
    while i < row.weights.len()
        invariant
            i <= row.weights.len(),
            forall|j: int| 0 <= j < i ==> row.weights@[j] is Some,
        decreases row.weights.len() - i,
    {
        if row.weights[i].is_none() {
            return RowOutcome::MalformedNumber;
        }
        i += 1;
    }
    let owner = match &row.owner {
        None => {
            return RowOutcome::Skipped;
        },
        Some(owner) => owner.clone(),
    };
    let open_date = match instant {
        None => {
            return RowOutcome::InvalidDate;
        },
        Some(instant) => instant,
    };
    let count = row.weights.len();
    let weight = if count > 0 {
        match row.weights[count - 1] {
            Some(weight) => weight,
            None => Weight::zero(),
        }
    } else {
        Weight::zero()
    };
    RowOutcome::Position(ShortPosition { owner, weight, open_date, ticker: ticker.to_owned() })
}

/// Finds the instant at which a position with the given date text was
/// stated.
fn instant_of_date(date: &Option<String>) -> (instant: Option<i64>)
    ensures
        instant == disclosure_instant(text_view(*date)),
{
    match date {
        None => None,
        Some(text) => match parse_date(text.as_str(), DATE_FORMAT) {
            None => None,
            Some(day) => the_instant(
                instant_of_local(TIME_ZONE, day, DISCLOSURE_HOUR, DISCLOSURE_MINUTE, 0),
            ),
        },
    }
}

/// Handler to extract data from the CNMV web page.
///
/// The site expects the NIF of a company, so tickers or names are of no use
/// to build a request.
#[derive(Debug)]
pub struct CnmvProvider {
    /// The main path of the URL.
    base_url: String,
    /// Path extension for the _PosicionesCortas_ endpoint.
    short_ext: String,
}

impl Default for CnmvProvider {
    fn default() -> (provider: CnmvProvider)
        ensures
            provider.base_url() == "https://www.cnmv.es"@,
            provider.short_ext() == "Portal/Consultas/EE/PosicionesCortas.aspx?nif="@,
    {
        CnmvProvider::new()
    }
}

impl CnmvProvider {
    /// The main path of the URL.
    pub closed spec fn base_url(&self) -> Seq<char> {
        self.base_url@
    }

    /// Path extension for the endpoint of the short positions.
    pub closed spec fn short_ext(&self) -> Seq<char> {
        self.short_ext@
    }

    /// The URL of the page of the short positions of the company with the
    /// given NIF.
    pub open spec fn url_of(&self, nif: Seq<char>) -> Seq<char> {
        self.base_url() + "/"@ + self.short_ext() + nif
    }

    /// Class constructor.
    pub fn new() -> (provider: CnmvProvider)
        ensures
            provider.base_url() == "https://www.cnmv.es"@,
            provider.short_ext() == "Portal/Consultas/EE/PosicionesCortas.aspx?nif="@,
    {
        CnmvProvider {
            base_url: "https://www.cnmv.es".to_owned(),
            short_ext: "Portal/Consultas/EE/PosicionesCortas.aspx?nif=".to_owned(),
        }
    }

    /// Builds the URL of the request for the short positions of a company.
    ///
    /// A company without NIF cannot be asked for: it gives
    /// [`CnmvError::MissingIsin`].
    pub fn request_url(&self, stock: &Company) -> (url: Result<String, CnmvError>)
        ensures
            match stock.extra_id {
                Some(nif) => url matches Ok(address) && address@ == self.url_of(nif@),
                None => url matches Err(CnmvError::MissingIsin),
            },
    {
        match &stock.extra_id {
            None => Err(CnmvError::MissingIsin),
            Some(nif) => {
                let mut address = self.base_url.clone();
                address.append("/");
                address.append(self.short_ext.as_str());
                address.append(nif.as_str());
                Ok(address)
            },
        }
    }

    /// Checks the answer of the site to a request.
    ///
    /// Any status but 200 is an [`CnmvError::ExternalError`] that carries the
    /// text of the status. The body of an answer with status 200 is checked
    /// as [`ShortResponse::parse`] does.
    pub fn collect_data(&self, status: u16, status_text: String, body: String) -> (checked: Result<
        ShortResponse,
        CnmvError,
    >)
        ensures
            status != STATUS_OK ==> (checked matches Err(CnmvError::ExternalError(reason))
                && reason@ == status_text@),
            status == STATUS_OK ==> checked_as(body@, checked),
    {
        if status != STATUS_OK {
            Err(CnmvError::ExternalError(status_text))
        } else {
            ShortResponse::parse(body)
        }
    }

    /// Reads the rows of the tables of a page.
    ///
    /// The page is parsed as HTML; each table row is read cell by cell, as
    /// [`scan_row`] does. Rows are only ever read from the page of a
    /// company: a response that was refused never gets here.
    pub fn position_rows(&self, page: &ShortResponse) -> (rows: Result<Vec<PositionRow>, CnmvError>)
        ensures
            classification(page@) == PageKind::Company,
            match selected_cells(
                page@,
                ROW_SELECTOR@,
                CELL_SELECTOR@,
                CLASS_ATTRIBUTE@,
                HEADER_ATTRIBUTE@,
            ) {
                Some(table) => rows matches Ok(found) && position_rows_view(found)
                    == table.map_values(|cells: Seq<CellView>| row_of(cells)),
                None => rows matches Err(CnmvError::InternalError(reason)) && reason@
                    == "The rows of the page could not be selected"@,
            },
    {
        match select_cells(
            page.as_ref(),
            ROW_SELECTOR,
            CELL_SELECTOR,
            CLASS_ATTRIBUTE,
            HEADER_ATTRIBUTE,
        ) {
            Some(table) => Ok(scan_table(&table)),
            None => Err(
                CnmvError::InternalError("The rows of the page could not be selected".to_owned()),
            ),
        }
    }

    /// Gives the short positions that the rows of a page state against the
    /// company with the given ticker.
    ///
    /// The positions come in the order of the page. The whole page is
    /// rejected by its first row with a weight that is no number
    /// ([`CnmvError::MalformedNumber`]) or with an owner and a date that has
    /// no instant ([`CnmvError::InvalidDate`]).
    pub fn short_positions(&self, rows: &Vec<WeighedRow>, ticker: &str) -> (positions: Result<
        Vec<ShortPosition>,
        CnmvError,
    >)
        ensures
            match extracted(weighed_rows_view(*rows), ticker@) {
                Ok(stated) => positions matches Ok(found) && positions_view(found) == stated,
                Err(Rejection::MalformedNumber) => positions matches Err(
                    CnmvError::MalformedNumber,
                ),
                Err(Rejection::InvalidDate) => positions matches Err(CnmvError::InvalidDate),
            },
    {
        let mut found: Vec<ShortPosition> = Vec::new();
        let ghost all = weighed_rows_view(*rows);
        let mut i: usize = 0;
        while i < rows.len()
            invariant
                i <= rows.len(),
                all == weighed_rows_view(*rows),
                extracted(all.take(i as int), ticker@) matches Ok(stated) && stated
                    =~= positions_view(found),
            decreases rows.len() - i,
        {
            let row = &rows[i];
            proof {
                assert(all.take(i + 1).drop_last() =~= all.take(i as int));
                assert(all.take(i + 1).last() == row@);
            }
            let ghost before = positions_view(found);
            let instant = instant_of_date(&row.date);
            match row_outcome(row, instant, ticker) {
                RowOutcome::Skipped => {},
                RowOutcome::Position(position) => {
                    found.push(position);
                    assert(positions_view(found) =~= before.push(position@));
                },
                RowOutcome::MalformedNumber => {
                    proof {
                        lemma_rejection_stays(all, i + 1, ticker@);
                    }
                    return Err(CnmvError::MalformedNumber);
                },
                RowOutcome::InvalidDate => {
                    proof {
                        lemma_rejection_stays(all, i + 1, ticker@);
                    }
                    return Err(CnmvError::InvalidDate);
                },
            }
            i += 1;
        }
        proof {
            assert(all.take(rows.len() as int) =~= all);
        }
        Ok(found)
    }
}

/// A page rejected by one of its first rows is rejected, for the same
/// reason, whatever rows follow.
proof fn lemma_rejection_stays(rows: Seq<WeighedRowView>, upto: int, ticker: Seq<char>)
    requires
        0 <= upto <= rows.len(),
        extracted(rows.take(upto), ticker) is Err,
    ensures
        extracted(rows, ticker) == extracted(rows.take(upto), ticker),
    decreases rows.len(),
{
    if upto < rows.len() {
        assert(rows.drop_last().take(upto) =~= rows.take(upto));
        lemma_rejection_stays(rows.drop_last(), upto, ticker);
    } else {
        assert(rows.take(upto) =~= rows);
    }
}

/// A numeral reads the same with a decimal comma and with a decimal point:
/// the numeral with a point in the place of each comma is handed out as the
/// same text as the numeral itself, and a numeral without comma is handed
/// out as it is.
pub proof fn lemma_comma_and_point_read_alike(numeral: Seq<char>)
    ensures
        decimal_point_numeral(replaced(numeral, ',', seq!['.'])) == decimal_point_numeral(numeral),
        !numeral.contains(',') ==> decimal_point_numeral(numeral) == numeral,
{
    reveal_strlit(".");
    assert(DECIMAL_POINT@ =~= seq!['.']);
    let point = seq!['.'];
    assert(!point.contains(',')) by {
        if point.contains(',') {
            let i = choose|i: int| 0 <= i < point.len() && point[i] == ',';
            assert(point[i] == '.');
        }
    }
    lemma_replaced_is_free(numeral, ',', point);
    lemma_replaced_without(replaced(numeral, ',', point), ',', point);
    if !numeral.contains(',') {
        lemma_replaced_without(numeral, ',', point);
    }
}

/// A row reads the same whether one of its weights is written with a
/// decimal comma or with a decimal point: writing a point in the place of
/// each comma of the numeral of a weight cell changes nothing of what the
/// cells of the row tell.
pub proof fn lemma_rows_read_alike(cells: Seq<CellView>, at: int, numeral: Seq<char>)
    requires
        0 <= at < cells.len(),
        cells[at].class is None,
        cells[at].header == Some(WEIGHT_HEADER@),
        cells[at].text == Some(numeral),
    ensures
        row_of(
            cells.update(at, CellView { text: Some(replaced(numeral, ',', seq!['.'])), ..cells[at] }),
        ) == row_of(cells),
    decreases cells.len(),
{
    let with_point = CellView { text: Some(replaced(numeral, ',', seq!['.'])), ..cells[at] };
    let other = cells.update(at, with_point);
    if at == cells.len() - 1 {
        assert(other.drop_last() =~= cells.drop_last());
        assert(other.last() == with_point);
        lemma_comma_and_point_read_alike(numeral);
    } else {
        assert(other.drop_last() =~= cells.drop_last().update(at, with_point));
        assert(other.last() == cells.last());
        assert(cells.drop_last()[at] == cells[at]);
        lemma_rows_read_alike(cells.drop_last(), at, numeral);
    }
}

} // verus!
