use live_expectancy::rows::{
    last_per_country, read_row, scan_rows, RawRow, RowCells, RowRead, Scanned, NUMBER_CELLS,
};

fn cells(country: Option<&str>, numbers: &[&str]) -> RowCells {
    RowCells {
        country: country.map(|c| c.to_string()),
        numbers: numbers.iter().map(|n| n.to_string()).collect(),
    }
}

fn entry(country: &str, all: &str, male: &str, female: &str) -> RawRow {
    RawRow {
        country: country.to_string(),
        all: all.to_string(),
        male: male.to_string(),
        female: female.to_string(),
    }
}

#[test]
fn three_number_cells_are_asked_for() {
    assert_eq!(NUMBER_CELLS, 3);
}

#[test]
fn read_row_gives_an_entry() {
    let read = read_row(&cells(Some("France"), &["81.5", "78.7", "84.3"]));
    assert_eq!(read, RowRead::Row(entry("France", "81.5", "78.7", "84.3")));
}

#[test]
fn read_row_ignores_cells_past_the_third_number() {
    let read = read_row(&cells(Some("France"), &["81.5", "78.7", "84.3", "9"]));
    assert_eq!(read, RowRead::Row(entry("France", "81.5", "78.7", "84.3")));
}

#[test]
fn read_row_skips_a_row_without_country() {
    assert_eq!(read_row(&cells(None, &["81.5", "78.7", "84.3"])), RowRead::Skip);
    assert_eq!(read_row(&cells(None, &[])), RowRead::Skip);
    assert_eq!(read_row(&cells(None, &["1"])), RowRead::Skip);
}

#[test]
fn read_row_reports_a_short_row() {
    assert_eq!(read_row(&cells(Some("Japan"), &["84.6", "81.6"])), RowRead::Short);
    assert_eq!(read_row(&cells(Some("Japan"), &[])), RowRead::Short);
}

#[test]
fn scan_of_nothing_is_empty() {
    assert_eq!(scan_rows(&vec![]), Scanned { rows: vec![], short: false });
}

#[test]
fn scan_keeps_order_and_skips() {
    let rows = vec![
        cells(None, &[]),
        cells(Some("France"), &["81.5", "78.7", "84.3"]),
        cells(None, &["72.6", "70.2", "75.0"]),
        cells(Some("Japan"), &["84.6", "81.6", "87.6"]),
    ];
    assert_eq!(
        scan_rows(&rows),
        Scanned {
            rows: vec![
                entry("France", "81.5", "78.7", "84.3"),
                entry("Japan", "84.6", "81.6", "87.6")
            ],
            short: false
        }
    );
}

#[test]
fn scan_without_the_skipped_row_is_the_same() {
    let with = vec![
        cells(Some("France"), &["81.5", "78.7", "84.3"]),
        cells(None, &["72.6", "70.2", "75.0"]),
        cells(Some("Japan"), &["84.6", "81.6", "87.6"]),
    ];
    let mut without = with.clone();
    without.remove(1);
    assert_eq!(scan_rows(&with), scan_rows(&without));
}

#[test]
fn scan_stops_at_the_first_short_row() {
    let rows = vec![
        cells(Some("France"), &["81.5", "78.7", "84.3"]),
        cells(Some("Japan"), &["84.6"]),
        cells(Some("Kenya"), &["66.1", "63.7", "68.4"]),
    ];
    assert_eq!(
        scan_rows(&rows),
        Scanned { rows: vec![entry("France", "81.5", "78.7", "84.3")], short: true }
    );
}

#[test]
fn last_per_country_keeps_rows_without_duplicates() {
    let rows = vec![entry("France", "81.5", "78.7", "84.3"), entry("Japan", "84.6", "81.6", "87.6")];
    assert_eq!(last_per_country(rows.clone()), rows);
    assert_eq!(last_per_country(vec![]), vec![]);
}

#[test]
fn last_per_country_keeps_the_later_row() {
    let rows = vec![
        entry("Fiji", "67.4", "65.6", "69.3"),
        entry("Japan", "84.6", "81.6", "87.6"),
        entry("Fiji", "70.0", "68.0", "72.0"),
        entry("Kenya", "66.1", "63.7", "68.4"),
        entry("Fiji", "71.0", "69.0", "73.0"),
        entry("Japan", "85.0", "82.0", "88.0"),
    ];
    assert_eq!(
        last_per_country(rows),
        vec![
            entry("Kenya", "66.1", "63.7", "68.4"),
            entry("Fiji", "71.0", "69.0", "73.0"),
            entry("Japan", "85.0", "82.0", "88.0"),
        ]
    );
}

#[test]
fn last_per_country_tells_countries_by_their_whole_name() {
    let rows = vec![
        entry("Niger", "62.0", "61.0", "63.0"),
        entry("Nigeria", "54.7", "53.8", "55.6"),
        entry("niger", "1", "2", "3"),
    ];
    assert_eq!(last_per_country(rows.clone()), rows);
}

#[test]
fn last_per_country_of_equal_rows_is_one_row() {
    let rows = vec![entry("Fiji", "1", "2", "3"), entry("Fiji", "1", "2", "3")];
    assert_eq!(last_per_country(rows), vec![entry("Fiji", "1", "2", "3")]);
}
