//! Reading the rows of the statistics table.
//!
//! A row comes in as text: the country that its first cell names, if it names
//! one, and the number cells that follow. The scan walks the rows in order,
//! passes over those that name no country, and stops at the first row that
//! names a country but lacks a number cell. Turning the cell texts into
//! numbers is left to the caller.

use vstd::prelude::*;

verus! {

/// The number cells that a row must have after the cell with the country.
pub const NUMBER_CELLS: usize = 3;

/// What a table row holds: the country named in its first cell, and the text
/// of the cells after the first.
#[derive(Debug, Clone, PartialEq, Eq)]
pub struct RowCells {
    pub country: Option<String>,
    pub numbers: Vec<String>,
}

/// One entry read from the table: the country and the text of its number cells.
#[derive(Debug, Clone, PartialEq, Eq)]
pub struct RawRow {
    pub country: String,
    pub all: String,
    pub male: String,
    pub female: String,
}

/// What reading one row gives.
#[derive(Debug, Clone, PartialEq, Eq)]
pub enum RowRead {
    /// The row names no country and is passed over.
    Skip,
    /// The row names a country and lacks a number cell.
    Short,
    /// The row gives an entry.
    Row(RawRow),
}

/// What a scan gives: the entries gathered, and whether a short row ended it.
#[derive(Debug, Clone, PartialEq, Eq)]
pub struct Scanned {
    pub rows: Vec<RawRow>,
    pub short: bool,
}

/// The mathematical value of a [`RowCells`].
pub ghost struct CellsText {
    pub country: Option<Seq<char>>,
    pub numbers: Seq<Seq<char>>,
}

/// The mathematical value of a [`RawRow`].
pub ghost struct RowText {
    pub country: Seq<char>,
    pub all: Seq<char>,
    pub male: Seq<char>,
    pub female: Seq<char>,
}

/// The mathematical value of a [`RowRead`].
pub ghost enum RowOutcome {
    Skip,
    Short,
    Row(RowText),
}

/// The mathematical value of a [`Scanned`].
pub ghost struct Scan {
    pub rows: Seq<RowText>,
    pub short: bool,
}

/// The values of a list of texts.
pub open spec fn texts_view(texts: Seq<String>) -> Seq<Seq<char>> {
    texts.map_values(|s: String| s@)
}

/// The values of a list of rows.
pub open spec fn cells_view(rows: Seq<RowCells>) -> Seq<CellsText> {
    rows.map_values(|r: RowCells| r@)
}

/// The values of a list of entries.
pub open spec fn rows_view(rows: Seq<RawRow>) -> Seq<RowText> {
    rows.map_values(|r: RawRow| r@)
}

impl View for RowCells {
    type V = CellsText;

    open spec fn view(&self) -> CellsText {
        CellsText {
            country: match self.country {
                Some(name) => Some(name@),
                None => None,
            },
            numbers: texts_view(self.numbers@),
        }
    }
}

impl View for RawRow {
    type V = RowText;

    open spec fn view(&self) -> RowText {
        RowText { country: self.country@, all: self.all@, male: self.male@, female: self.female@ }
    }
}

impl View for RowRead {
    type V = RowOutcome;

    open spec fn view(&self) -> RowOutcome {
        match self {
            RowRead::Skip => RowOutcome::Skip,
            RowRead::Short => RowOutcome::Short,
            RowRead::Row(row) => RowOutcome::Row(row@),
        }
    }
}

impl View for Scanned {
    type V = Scan;

    open spec fn view(&self) -> Scan {
        Scan { rows: rows_view(self.rows@), short: self.short }
    }
}

/// What a row amounts to. Whether it names a country is decided first: a row
/// that names none is passed over however many cells it has.
pub open spec fn row_outcome(cells: CellsText) -> RowOutcome {
    match cells.country {
        None => RowOutcome::Skip,
        Some(country) => if cells.numbers.len() < NUMBER_CELLS {
            RowOutcome::Short
        } else {
            RowOutcome::Row(
                RowText {
                    country,
                    all: cells.numbers[0],
                    male: cells.numbers[1],
                    female: cells.numbers[2],
                },
            )
        },
    }
}

/// The scan after the first `n` of `rows`. A short row ends the scan: the
/// rows after it are not read.
pub open spec fn scan_prefix(rows: Seq<CellsText>, n: nat) -> Scan
    decreases n,
{
    if n == 0 {
        Scan { rows: Seq::empty(), short: false }
    } else {
        let before = scan_prefix(rows, (n - 1) as nat);
        if before.short {
            before
        } else {
            match row_outcome(rows[n - 1]) {
                RowOutcome::Skip => before,
                RowOutcome::Short => Scan { rows: before.rows, short: true },
                RowOutcome::Row(row) => Scan { rows: before.rows.push(row), short: false },
            }
        }
    }
}

/// The scan of all of `rows`.
pub open spec fn scan_all(rows: Seq<CellsText>) -> Scan {
    scan_prefix(rows, rows.len())
}

/// Once a short row has ended a scan, the rows after it change nothing.
pub proof fn lemma_short_row_ends_scan(rows: Seq<CellsText>, n: nat, m: nat)
    requires
        n <= m,
        scan_prefix(rows, n).short,
    ensures
        scan_prefix(rows, m) == scan_prefix(rows, n),
    decreases m,
{
    if n < m {
        lemma_short_row_ends_scan(rows, n, (m - 1) as nat);
    }
}

/// A scan reads only the rows it is given: two lists that agree on their
/// first `n` rows give the same scan of those rows.
pub proof fn lemma_scan_reads_prefix(a: Seq<CellsText>, b: Seq<CellsText>, n: nat)
    requires
        n <= a.len(),
        n <= b.len(),
        forall|j: int| 0 <= j < n ==> a[j] == b[j],
    ensures
        scan_prefix(a, n) == scan_prefix(b, n),
    decreases n,
{
    if n > 0 {
        lemma_scan_reads_prefix(a, b, (n - 1) as nat);
    }
}

proof fn lemma_skip_within_prefix(rows: Seq<CellsText>, k: int, n: nat)
    requires
        0 <= k < n <= rows.len(),
        rows[k].country is None,
    ensures
        scan_prefix(rows, n) == scan_prefix(rows.remove(k), (n - 1) as nat),
    decreases n,
{
    let rest = rows.remove(k);
    if n == k + 1 {
        lemma_scan_reads_prefix(rows, rest, k as nat);
    } else {
        lemma_skip_within_prefix(rows, k, (n - 1) as nat);
        assert(rest[n - 2] == rows[n - 1]);
    }
}

/// A row that names no country is left out, and the rows around it are read
/// as if it were not there: the scan equals the scan of the list without
/// that row.
pub proof fn lemma_row_without_country_is_omitted(rows: Seq<CellsText>, k: int)
    requires
        0 <= k < rows.len(),
        rows[k].country is None,
    ensures
        scan_all(rows) == scan_all(rows.remove(k)),
{
    lemma_skip_within_prefix(rows, k, rows.len());
}

/// No entry after the one at `i` carries its country.
pub open spec fn is_last(rows: Seq<RowText>, i: int) -> bool {
    forall|j: int| i < j < rows.len() ==> (#[trigger] rows[j]).country != rows[i].country
}

/// Of the first `n` entries, those that are the last of their country, in
/// the order in which they stand.
pub open spec fn last_rows_prefix(rows: Seq<RowText>, n: nat) -> Seq<RowText>
    decreases n,
{
    if n == 0 {
        Seq::empty()
    } else {
        let before = last_rows_prefix(rows, (n - 1) as nat);
        if is_last(rows, n - 1) {
            before.push(rows[n - 1])
        } else {
            before
        }
    }
}

/// The entries that are the last of their country, in the order in which
/// they stand.
pub open spec fn last_rows(rows: Seq<RowText>) -> Seq<RowText> {
    last_rows_prefix(rows, rows.len())
}

/// `entry` is one of the first `n` entries, and the last of its country.
pub open spec fn is_last_among(rows: Seq<RowText>, n: nat, entry: RowText) -> bool {
    exists|i: int| 0 <= i < n && #[trigger] is_last(rows, i) && rows[i] == entry
}

/// Some entry of `rows` carries `country`.
pub open spec fn has_country(rows: Seq<RowText>, country: Seq<char>) -> bool {
    exists|k: int| 0 <= k < rows.len() && (#[trigger] rows[k]).country == country
}

/// Some entry of `rows` from position `n` on carries `country`.
pub open spec fn has_country_from(rows: Seq<RowText>, n: nat, country: Seq<char>) -> bool {
    exists|j: int| n <= j < rows.len() && (#[trigger] rows[j]).country == country
}

/// No two entries carry one country.
pub open spec fn countries_differ(rows: Seq<RowText>) -> bool {
    forall|a: int, b: int|
        0 <= a < b < rows.len() ==> (#[trigger] rows[a]).country != (#[trigger] rows[b]).country
}

proof fn lemma_kept_are_last(rows: Seq<RowText>, n: nat)
    requires
        n <= rows.len(),
    ensures
        forall|k: int|
            0 <= k < last_rows_prefix(rows, n).len() ==> is_last_among(
                rows,
                n,
                #[trigger] last_rows_prefix(rows, n)[k],
            ),
        countries_differ(last_rows_prefix(rows, n)),
    decreases n,
{
    if n > 0 {
        let before = last_rows_prefix(rows, (n - 1) as nat);
        let now = last_rows_prefix(rows, n);
        lemma_kept_are_last(rows, (n - 1) as nat);
        assert forall|k: int| 0 <= k < now.len() implies is_last_among(rows, n, #[trigger] now[k]) by {
            if k < before.len() {
                assert(now[k] == before[k]);
                assert(is_last_among(rows, (n - 1) as nat, before[k]));
                let i = choose|i: int| 0 <= i < n - 1 && #[trigger] is_last(rows, i) && rows[i] == before[k];
                assert(0 <= i < n && is_last(rows, i) && rows[i] == now[k]);
            } else {
                assert(is_last(rows, n - 1) && rows[n - 1] == now[k]);
            }
        }
        assert forall|a: int, b: int| 0 <= a < b < now.len() implies (#[trigger] now[a]).country != (
        #[trigger] now[b]).country by {
            if b < before.len() {
                assert(now[a] == before[a] && now[b] == before[b]);
            } else {
                assert(now[a] == before[a]);
                assert(is_last_among(rows, (n - 1) as nat, before[a]));
                let i = choose|i: int| 0 <= i < n - 1 && #[trigger] is_last(rows, i) && rows[i] == before[a];
                assert(rows[n - 1].country != rows[i].country);
            }
        }
    }
}

proof fn lemma_country_is_kept(rows: Seq<RowText>, n: nat, i: int)
    requires
        0 <= i < n <= rows.len(),
    ensures
        has_country(last_rows_prefix(rows, n), rows[i].country) || has_country_from(
            rows,
            n,
            rows[i].country,
        ),
    decreases n,
{
    let c = rows[i].country;
    let before = last_rows_prefix(rows, (n - 1) as nat);
    let now = last_rows_prefix(rows, n);
    let mut at_end = i == n - 1;
    if i < n - 1 {
        lemma_country_is_kept(rows, (n - 1) as nat, i);
        if has_country(before, c) {
            let k = choose|k: int| 0 <= k < before.len() && (#[trigger] before[k]).country == c;
            assert(now[k] == before[k]);
            assert(has_country(now, c));
        } else {
            let j = choose|j: int| n - 1 <= j < rows.len() && (#[trigger] rows[j]).country == c;
            if j == n - 1 {
                at_end = true;
            } else {
                assert(n <= j < rows.len() && rows[j].country == c);
            }
        }
    }
    if at_end {
        assert(rows[n - 1].country == c);
        if is_last(rows, n - 1) {
            assert(now[now.len() - 1] == rows[n - 1]);
            assert(has_country(now, c));
        } else {
            let j = choose|j: int| n - 1 < j < rows.len() && (#[trigger] rows[j]).country == rows[n - 1].country;
            assert(n <= j < rows.len() && rows[j].country == c);
        }
    }
}

/// Of the entries of one country only the last stays: no two entries of
/// [`last_rows`] carry one country, each of them is the last entry of its
/// country, and every country that occurs is still there.
pub proof fn lemma_last_rows(rows: Seq<RowText>)
    ensures
        countries_differ(last_rows(rows)),
        forall|k: int|
            0 <= k < last_rows(rows).len() ==> is_last_among(
                rows,
                rows.len(),
                #[trigger] last_rows(rows)[k],
            ),
        forall|i: int| 0 <= i < rows.len() ==> has_country(last_rows(rows), (#[trigger] rows[i]).country),
{
    lemma_kept_are_last(rows, rows.len());
    assert forall|i: int| 0 <= i < rows.len() implies has_country(
        last_rows(rows),
        (#[trigger] rows[i]).country,
    ) by {
        lemma_country_is_kept(rows, rows.len(), i);
    }
}

fn copy_row(row: &RawRow) -> (out: RawRow)
    ensures
        out@ == row@,
{
    RawRow {
        country: row.country.clone(),
        all: row.all.clone(),
        male: row.male.clone(),
        female: row.female.clone(),
    }
}

/// Keeps, of the entries of one country, the last. The entries that stay
/// keep their order.
pub fn last_per_country(rows: Vec<RawRow>) -> (out: Vec<RawRow>)
    ensures
        rows_view(out@) == last_rows(rows_view(rows@)),
        countries_differ(rows_view(out@)),
        forall|k: int|
            0 <= k < out@.len() ==> is_last_among(
                rows_view(rows@),
                rows@.len(),
                #[trigger] rows_view(out@)[k],
            ),
        forall|i: int|
            0 <= i < rows@.len() ==> has_country(
                rows_view(out@),
                (#[trigger] rows_view(rows@)[i]).country,
            ),
{
    let mut out: Vec<RawRow> = Vec::new();
    let mut i: usize = 0;
    while i < rows.len()
        invariant
            i <= rows.len(),
            rows_view(out@) =~= last_rows_prefix(rows_view(rows@), i as nat),
        decreases rows.len() - i,
    {
        let ghost all = rows_view(rows@);
        let ghost before = rows_view(out@);
        let mut later = false;
        let mut j: usize = i + 1;
        while j < rows.len()
            invariant
                i < j <= rows.len(),
                all == rows_view(rows@),
                later <==> exists|m: int| i < m < j && (#[trigger] all[m]).country == all[i as int].country,
            decreases rows.len() - j,
        {
            if rows[j].country == rows[i].country {
                later = true;
                assert(all[j as int].country == all[i as int].country);
            }
            j += 1;
        }
        assert(!later <==> is_last(all, i as int));
        if !later {
            let row = copy_row(&rows[i]);
            out.push(row);
            assert(rows_view(out@) =~= before.push(all[i as int]));
        }
        i += 1;
    }
    proof {
        lemma_last_rows(rows_view(rows@));
    }
    out
}

/// Reads one row.
pub fn read_row(cells: &RowCells) -> (read: RowRead)
    ensures
        read@ == row_outcome(cells@),
{
    match &cells.country {
        None => RowRead::Skip,
        Some(country) => {
            if cells.numbers.len() < NUMBER_CELLS {
                RowRead::Short
            } else {
                RowRead::Row(
                    RawRow {
                        country: country.clone(),
                        all: cells.numbers[0].clone(),
                        male: cells.numbers[1].clone(),
                        female: cells.numbers[2].clone(),
                    },
                )
            }
        },
    }
}

/// Scans `rows` in order and gathers the entries, up to the first short row.
pub fn scan_rows(rows: &Vec<RowCells>) -> (scanned: Scanned)
    ensures
        scanned@ == scan_all(cells_view(rows@)),
{
    let mut out: Vec<RawRow> = Vec::new();
    let mut i: usize = 0;
    while i < rows.len()
        invariant
            i <= rows.len(),
            !scan_prefix(cells_view(rows@), i as nat).short,
            scan_prefix(cells_view(rows@), i as nat).rows =~= rows_view(out@),
        decreases rows.len() - i,
    {
        let ghost before = rows_view(out@);
        match read_row(&rows[i]) {
            RowRead::Skip => {},
            RowRead::Short => {
                proof {
                    assert(scan_prefix(cells_view(rows@), (i + 1) as nat).short);
                    lemma_short_row_ends_scan(cells_view(rows@), (i + 1) as nat, rows@.len());
                    assert(scan_all(cells_view(rows@)).rows == before);
                }
                return Scanned { rows: out, short: true };
            },
            RowRead::Row(row) => {
                out.push(row);
                assert(rows_view(out@) =~= before.push(row@));
            },
        }
        i += 1;
    }
    Scanned { rows: out, short: false }
}

} // verus!
