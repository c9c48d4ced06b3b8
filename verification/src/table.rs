//! Finding the statistics table in a document and handing out its rows.
//!
//! The table is one of the elements that carry a class marker, chosen by its
//! position among them. Its rows are those of its first table body. Of each
//! row the first four cells count: the first names the country by the text of
//! its first hyperlink, the other three hold the numbers. Cells and rows are
//! the `td` and `tr` elements anywhere below, in document order.

use vstd::prelude::*;
use vstd::string::StringSliceAdditionalSpecFns;
use select::document::Document;
use crate::dom::{
    all_within, descendants_named, find_class, find_name, is_parsed, node_count, node_text,
    nodes_with_class, parse_html, parsed_html, text_of, trim_text, trimmed, MAX_TEXT_BYTES,
};
use crate::rows::{
    cells_view, lemma_row_without_country_is_omitted, rows_view, scan_all, scan_rows, CellsText,
    RawRow, RowCells, RowText, NUMBER_CELLS,
};

verus! {

/// Position, among the elements that carry the class marker, of the table
/// that holds the statistics (counted from zero).
pub const TABLE_INDEX: usize = 2;

/// Why no complete list of entries came out of a document.
#[derive(Debug, Clone, PartialEq, Eq)]
pub enum ExtractError {
    /// The text is longer than [`MAX_TEXT_BYTES`] and is not parsed.
    TextTooLong,
    /// The document has too few elements with the class marker.
    TableNotFound,
    /// The chosen element has no table body below it.
    BodyNotFound,
    /// A row names a country but lacks a number cell. `before` holds the
    /// entries read ahead of it.
    ShortRow { before: Vec<RawRow> },
}

/// The rows found in a document, or why there are none.
pub ghost enum Gathered {
    Rows(Seq<CellsText>),
    TableNotFound,
    BodyNotFound,
}

/// What a document amounts to.
pub ghost enum Outcome {
    TextTooLong,
    Rows(Seq<RowText>),
    TableNotFound,
    BodyNotFound,
    ShortRow(Seq<RowText>),
}

/// The class marker of the statistics table.
pub open spec fn table_class() -> Seq<char> {
    "wikitable"@
}

/// The first of a row's cells, if it has any.
pub open spec fn first_cell(doc: Document, tr: usize) -> Option<usize> {
    let cells = descendants_named(doc, tr, "td"@);
    if cells.len() > 0 {
        Some(cells[0])
    } else {
        None
    }
}

/// The country that a cell names: the text of the first hyperlink below it.
pub open spec fn country_name(doc: Document, cell: Option<usize>) -> Option<Seq<char>> {
    match cell {
        None => None,
        Some(c) => {
            let links = descendants_named(doc, c, "a"@);
            if links.len() > 0 {
                Some(text_of(doc, links[0]))
            } else {
                None
            }
        },
    }
}

/// The text of a number cell, without the whitespace around it.
pub open spec fn number_text(doc: Document, cell: usize) -> Seq<char> {
    trimmed(text_of(doc, cell))
}

/// How many number cells are read of a row with `cells` cells: those after
/// the first, and no more than a row must have.
pub open spec fn number_cell_count(cells: nat) -> nat {
    if cells == 0 {
        0
    } else if cells > NUMBER_CELLS {
        NUMBER_CELLS as nat
    } else {
        (cells - 1) as nat
    }
}

/// What the row at node `tr` holds.
pub open spec fn row_cells(doc: Document, tr: usize) -> CellsText {
    let cells = descendants_named(doc, tr, "td"@);
    CellsText {
        country: country_name(doc, first_cell(doc, tr)),
        numbers: Seq::new(number_cell_count(cells.len()), |j: int| number_text(doc, cells[j + 1])),
    }
}

/// What the rows at the nodes `trs` hold.
pub open spec fn rows_cells(doc: Document, trs: Seq<usize>) -> Seq<CellsText> {
    trs.map_values(|tr: usize| row_cells(doc, tr))
}

/// The rows of the table at position `index` among the elements with the
/// class `class`.
pub open spec fn gathered(doc: Document, class: Seq<char>, index: usize) -> Gathered {
    let tables = nodes_with_class(doc, class);
    if tables.len() <= index {
        Gathered::TableNotFound
    } else {
        let bodies = descendants_named(doc, tables[index as int], "tbody"@);
        if bodies.len() == 0 {
            Gathered::BodyNotFound
        } else {
            let trs = descendants_named(doc, bodies[0], "tr"@);
            Gathered::Rows(rows_cells(doc, trs))
        }
    }
}

/// What the document amounts to when the table is the element at position
/// `index` among those with the class `class`.
pub open spec fn table_outcome(doc: Document, class: Seq<char>, index: usize) -> Outcome {
    match gathered(doc, class, index) {
        Gathered::TableNotFound => Outcome::TableNotFound,
        Gathered::BodyNotFound => Outcome::BodyNotFound,
        Gathered::Rows(rows) => {
            let scan = scan_all(rows);
            if scan.short {
                Outcome::ShortRow(scan.rows)
            } else {
                Outcome::Rows(scan.rows)
            }
        },
    }
}

/// What an HTML text amounts to: a text of more than [`MAX_TEXT_BYTES`] bytes
/// is refused, any other is parsed and its table read.
pub open spec fn text_outcome(html: &str, class: Seq<char>, index: usize) -> Outcome {
    if html.spec_bytes().len() > MAX_TEXT_BYTES {
        Outcome::TextTooLong
    } else {
        table_outcome(parsed_html(html@), class, index)
    }
}

/// The value of what an extraction returns.
pub open spec fn outcome_view(r: Result<Vec<RawRow>, ExtractError>) -> Outcome {
    match r {
        Ok(rows) => Outcome::Rows(rows_view(rows@)),
        Err(ExtractError::TextTooLong) => Outcome::TextTooLong,
        Err(ExtractError::TableNotFound) => Outcome::TableNotFound,
        Err(ExtractError::BodyNotFound) => Outcome::BodyNotFound,
        Err(ExtractError::ShortRow { before }) => Outcome::ShortRow(rows_view(before@)),
    }
}

/// A table row whose first cell holds no hyperlink gives no entry, and the
/// rows after it are read all the same: the rows give what they would give
/// without that row.
pub proof fn lemma_row_without_link_is_omitted(doc: Document, trs: Seq<usize>, k: int)
    requires
        0 <= k < trs.len(),
        country_name(doc, first_cell(doc, trs[k])) is None,
    ensures
        scan_all(rows_cells(doc, trs)) == scan_all(rows_cells(doc, trs.remove(k))),
{
    assert(rows_cells(doc, trs).remove(k) =~= rows_cells(doc, trs.remove(k)));
    lemma_row_without_country_is_omitted(rows_cells(doc, trs), k);
}

/// The country named by a cell, if there is a cell and it holds a hyperlink.
fn extract_country_name(doc: &Document, cell: Option<usize>) -> (name: Option<String>)
    requires
        is_parsed(*doc),
        cell matches Some(c) ==> c < node_count(*doc),
    ensures
        match name {
            Some(text) => country_name(*doc, cell) == Some(text@),
            None => country_name(*doc, cell) is None,
        },
{
    match cell {
        None => None,
        Some(c) => {
            let links = find_name(doc, c, "a");
            if links.len() > 0 {
                Some(node_text(doc, links[0]))
            } else {
                None
            }
        },
    }
}

/// The trimmed text of a number cell.
fn read_number_text(doc: &Document, cell: usize) -> (text: String)
    requires
        is_parsed(*doc),
        cell < node_count(*doc),
    ensures
        text@ == number_text(*doc, cell),
{
    let text = node_text(doc, cell);
    trim_text(text.as_str())
}

/// What the row at node `tr` holds.
fn gather_row(doc: &Document, tr: usize) -> (row: RowCells)
    requires
        is_parsed(*doc),
        tr < node_count(*doc),
    ensures
        row@ == row_cells(*doc, tr),
{
    let cells = find_name(doc, tr, "td");
    let first = if cells.len() > 0 {
        Some(cells[0])
    } else {
        None
    };
    let country = extract_country_name(doc, first);
    let end: usize = if cells.len() > NUMBER_CELLS {
        NUMBER_CELLS + 1
    } else {
        cells.len()
    };
    let mut numbers: Vec<String> = Vec::new();
    let mut j: usize = 1;
    while j < end
        invariant
            is_parsed(*doc),
            1 <= j,
            j <= end || j == 1,
            end <= cells.len(),
            all_within(*doc, cells@),
            numbers@.len() == j - 1,
            forall|k: int|
                0 <= k < j - 1 ==> (#[trigger] numbers@[k])@ == number_text(*doc, cells@[k + 1]),
        decreases end - j,
    {
        numbers.push(read_number_text(doc, cells[j]));
        j += 1;
    }
    let row = RowCells { country, numbers };
    proof {
        let want = row_cells(*doc, tr).numbers;
        assert forall|k: int| 0 <= k < want.len() implies row@.numbers[k] == want[k] by {
            assert(row@.numbers[k] == numbers@[k]@);
        }
        assert(row@.numbers =~= want);
        assert(row@.country == row_cells(*doc, tr).country);
    }
    row
}

/// The rows of the table at position `index` among the elements of `doc` that
/// carry the class `class`, as text, before any of them is read.
fn table_cells(doc: &Document, class: &str, index: usize) -> (r: Result<
    Vec<RowCells>,
    ExtractError,
>)
    requires
        is_parsed(*doc),
    ensures
        match r {
            Ok(rows) => gathered(*doc, class@, index) == Gathered::Rows(cells_view(rows@)),
            Err(ExtractError::TableNotFound) => gathered(*doc, class@, index) is TableNotFound,
            Err(ExtractError::BodyNotFound) => gathered(*doc, class@, index) is BodyNotFound,
            Err(ExtractError::ShortRow { .. }) => false,
            Err(ExtractError::TextTooLong) => false,
        },
{
    let tables = find_class(doc, class);
    if tables.len() <= index {
        return Err(ExtractError::TableNotFound);
    }
    let bodies = find_name(doc, tables[index], "tbody");
    if bodies.len() == 0 {
        return Err(ExtractError::BodyNotFound);
    }
    let trs = find_name(doc, bodies[0], "tr");
    let mut rows: Vec<RowCells> = Vec::new();
    let mut i: usize = 0;
    while i < trs.len()
        invariant
            is_parsed(*doc),
            i <= trs.len(),
            all_within(*doc, trs@),
            rows@.len() == i,
            forall|k: int| 0 <= k < i ==> (#[trigger] rows@[k])@ == row_cells(*doc, trs@[k]),
        decreases trs.len() - i,
    {
        rows.push(gather_row(doc, trs[i]));
        i += 1;
    }
    assert(cells_view(rows@) =~= rows_cells(*doc, trs@));
    Ok(rows)
}

/// Parses `html` and reads the table at position `index` among the elements
/// that carry the class `class`.
///
/// Returns the entries of the rows that name a country, in document order.
/// Fails when the text is too long to parse, when there is no such element,
/// when it has no table body, and at the first row that names a country but
/// lacks a number cell.
pub fn rows_of_table(html: &str, class: &str, index: usize) -> (r: Result<
    Vec<RawRow>,
    ExtractError,
>)
    ensures
        outcome_view(r) == text_outcome(html, class@, index),
{
    if html.as_bytes().len() > MAX_TEXT_BYTES {
        return Err(ExtractError::TextTooLong);
    }
    let doc = parse_html(html);
    match table_cells(&doc, class, index) {
        Err(e) => Err(e),
        Ok(cells) => {
            let scanned = scan_rows(&cells);
            if scanned.short {
                Err(ExtractError::ShortRow { before: scanned.rows })
            } else {
                Ok(scanned.rows)
            }
        },
    }
}

/// Parses `html` and reads its statistics table: the element at position
/// [`TABLE_INDEX`] among those with the class `wikitable`.
pub fn extract_rows(html: &str) -> (r: Result<Vec<RawRow>, ExtractError>)
    ensures
        outcome_view(r) == text_outcome(html, table_class(), TABLE_INDEX),
{
    rows_of_table(html, "wikitable", TABLE_INDEX)
}

} // verus!
