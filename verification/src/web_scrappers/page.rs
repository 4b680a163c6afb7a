//! The table cells of an HTML page.

use crate::text::text_view;
use vstd::prelude::*;

verus! {

/// What the library reads of a cell of a table.
#[derive(Debug)]
pub struct Cell {
    /// Value of the first attribute asked for, when the cell has it.
    pub class: Option<String>,
    /// Value of the second attribute asked for, when the cell has it.
    pub header: Option<String>,
    /// First piece of text inside the cell, when it has any.
    pub text: Option<String>,
}

/// Mathematical value of a [`Cell`].
pub struct CellView {
    pub class: Option<Seq<char>>,
    pub header: Option<Seq<char>>,
    pub text: Option<Seq<char>>,
}

impl View for Cell {
    type V = CellView;

    open spec fn view(&self) -> CellView {
        CellView {
            class: text_view(self.class),
            header: text_view(self.header),
            text: text_view(self.text),
        }
    }
}

/// Mathematical value of the cells of a row.
pub open spec fn cells_view(cells: Vec<Cell>) -> Seq<CellView> {
    cells@.map_values(|cell: Cell| cell@)
}

/// Mathematical value of the cells of a page, row by row.
pub open spec fn table_view(rows: Vec<Vec<Cell>>) -> Seq<Seq<CellView>> {
    rows@.map_values(|cells: Vec<Cell>| cells_view(cells))
}

/// The cells that the HTML parser finds in the document `body`: one entry
/// for each element that the selector `rows` matches, in the order of the
/// document, which holds one cell for each element inside it that the
/// selector `cells` matches. A cell holds the values of its attributes
/// `first` and `second` and its first piece of text. `None` where one of the
/// two selectors is no CSS selector.
pub uninterp spec fn selected_cells(
    body: Seq<char>,
    rows: Seq<char>,
    cells: Seq<char>,
    first: Seq<char>,
    second: Seq<char>,
) -> Option<Seq<Seq<CellView>>>;

/// Parses an HTML document and hands out the cells that two selectors pick.
///
/// Trusted: parses the selectors with `scraper::Selector::parse` and the
/// document with `scraper::Html::parse_document`, walks the matches of
/// `Html::select` and, inside each, of `ElementRef::select`, and reads each
/// cell with `ElementRef::attr` and the first item of `ElementRef::text`.
/// The result depends on the arguments alone, so it is given a name; nothing
/// else is claimed of it.
#[verifier::external_body]
pub(crate) fn select_cells(body: &str, rows: &str, cells: &str, first: &str, second: &str) -> (found:
    Option<Vec<Vec<Cell>>>)
    ensures
        match found {
            Some(table) => selected_cells(body@, rows@, cells@, first@, second@) == Some(
                table_view(table),
            ),
            None => selected_cells(body@, rows@, cells@, first@, second@) is None,
        },
{
    let rows = scraper::Selector::parse(rows).ok()?;
    let cells = scraper::Selector::parse(cells).ok()?;
    let document = scraper::Html::parse_document(body);
    let cell = |element: scraper::ElementRef| Cell {
        class: element.attr(first).map(String::from),
        header: element.attr(second).map(String::from),
        text: element.text().next().map(String::from),
    };
    Some(document.select(&rows).map(|row| row.select(&cells).map(cell).collect()).collect())
}

} // verus!
