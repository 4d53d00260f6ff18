//! CSV files.

use spread::cache::RowCache;
use spread::cell::CellData;
use spread::csv_source::{
    csv_cell_kind, detect_csv_header, has_duplicate_non_empty_value, infer_csv_column_types,
    is_csv_int, is_iso_date_prefix, load_cell, load_row, non_empty_row_count, read_row, read_rows,
    CsvCellKind, CsvHeaderDetection, CsvIndex, CSV_ROW_CACHE_CAPACITY,
};
use spread::merges::SheetFreeze;
use spread::pixels::Pixels;
use spread::sheet::{SheetData, SheetRowLayout};

fn px(length: f32) -> Pixels {
    Pixels { bits: length.to_bits() }
}

fn csv_rows(rows: &[&[&str]]) -> Vec<Vec<String>> {
    rows.iter()
        .map(|row| row.iter().map(|value| (*value).to_owned()).collect())
        .collect()
}

fn csv_sheet(text: &str) -> SheetData {
    let index = CsvIndex::new(text.as_bytes()).expect("CSV sheet should load");
    let freeze = index.freeze();
    let mut sheet = SheetData::from_source(
        None,
        index.row_count(),
        index.col_count,
        px(120.0),
        px(24.0),
        freeze,
    );
    let rows = read_rows(text.as_bytes()).expect("CSV rows should be read");
    sheet.show_rows(0, rows);
    sheet
}

fn texts(cells: &[CellData]) -> Vec<&str> {
    cells.iter().map(|cell| cell.value.as_str()).collect()
}

#[test]
fn detects_header_csv() {
    let rows = csv_rows(&[
        &["month", "customers", "revenue"],
        &["2025-01-01", "27", "1200"],
        &["2025-02-01", "38", "1500"],
    ]);

    assert_eq!(detect_csv_header(&rows), CsvHeaderDetection::Header);
}

#[test]
fn does_not_detect_numeric_data_as_header() {
    let rows = csv_rows(&[
        &["2025-01-01", "27", "1200"],
        &["2025-02-01", "38", "1500"],
        &["2025-03-01", "44", "1800"],
    ]);

    assert_eq!(detect_csv_header(&rows), CsvHeaderDetection::NoHeader);
}

#[test]
fn leaves_all_text_csv_unknown() {
    let rows = csv_rows(&[&["name", "city"], &["Alice", "London"], &["Bob", "Paris"]]);

    assert_eq!(detect_csv_header(&rows), CsvHeaderDetection::Unknown);
}

#[test]
fn rejects_duplicate_header_row_data() {
    let rows = csv_rows(&[&["id", "id"], &["1", "10"], &["2", "20"]]);

    assert_eq!(detect_csv_header(&rows), CsvHeaderDetection::NoHeader);
}

#[test]
fn leaves_weak_leading_null_sample_unknown() {
    let rows = csv_rows(&[&["name", "count"], &["", ""], &["Alice", "1"]]);

    assert_eq!(detect_csv_header(&rows), CsvHeaderDetection::Unknown);
}

#[test]
fn freezes_first_row_for_detected_csv_header() {
    let sheet =
        csv_sheet("month,customers,revenue\n2025-01-01,27,1200\n2025-02-01,38,1500\n");

    assert_eq!(sheet.freeze(), SheetFreeze { rows: 1, columns: 0 });
}

#[test]
fn loads_csv_with_quoted_and_uneven_rows() {
    let sheet = csv_sheet("name,note\nAda,\"hello, csv\"\nGrace\n");

    assert_eq!(sheet.row_count(), 3);
    assert_eq!(sheet.col_count(), 2);
    assert_eq!(sheet.cell(1, 0), "Ada");
    assert_eq!(sheet.cell(1, 1), "hello, csv");
    assert_eq!(sheet.cell(2, 0), "Grace");
    assert_eq!(sheet.cell(2, 1), "");
}

#[test]
fn csv_uses_uniform_row_layout() {
    let sheet = csv_sheet("name,note\nAda,\"line 1\nline 2\"\n");

    assert!(matches!(
        sheet.row_layout(&Vec::new()),
        SheetRowLayout::Uniform { row_count: 2, height }
            if (f32::from_bits(height.bits) - 24.0).abs() < f32::EPSILON
    ));
}

#[test]
fn loads_empty_csv_as_empty_grid() {
    let sheet = csv_sheet("");

    assert_eq!(sheet.row_count(), 0);
    assert_eq!(sheet.col_count(), 0);
}

#[test]
fn rows_read_by_offset_are_the_rows_of_the_file() {
    let text = "a,b\n\n\"x\ny\",\"q\"\"q\"\r\nlast\n";
    let index = CsvIndex::new(text.as_bytes()).unwrap();
    let rows = read_rows(text.as_bytes()).unwrap();
    assert_eq!(index.row_count(), rows.len());
    assert_eq!(index.col_count, 2);
    for (row, cells) in rows.iter().enumerate() {
        let offset = index.row_offset(row).unwrap() as usize;
        let read = read_row(&text.as_bytes()[offset..]).unwrap();
        assert_eq!(texts(&read), texts(cells));
    }
    assert_eq!(index.row_offset(rows.len()), None);
    assert_eq!(texts(&rows[1]), vec!["x\ny", "q\"q"]);
    assert!(read_row(b"").unwrap().is_empty());
}

#[test]
fn rows_behind_a_byte_order_mark_are_read() {
    let bytes = "\u{feff}a,b\n1,2\n".as_bytes();
    let index = CsvIndex::new(bytes).unwrap();
    let mut cache = RowCache::new(CSV_ROW_CACHE_CAPACITY);
    assert_eq!(index.row_offset(0), Some(0));
    assert_eq!(texts(&load_row(&index, &mut cache, bytes, 0).unwrap()), vec!["a", "b"]);
    assert_eq!(texts(&load_row(&index, &mut cache, bytes, 1).unwrap()), vec!["1", "2"]);
}

#[test]
fn cached_rows_are_the_rows_of_the_file() {
    let text = "a,b\nc,d\ne\n";
    let bytes = text.as_bytes();
    let index = CsvIndex::new(bytes).unwrap();
    let mut cache = RowCache::new(CSV_ROW_CACHE_CAPACITY);
    for _ in 0..2 {
        assert_eq!(texts(&load_row(&index, &mut cache, bytes, 1).unwrap()), vec!["c", "d"]);
        assert_eq!(load_cell(&index, &mut cache, bytes, 0, 1).value, "b");
        assert_eq!(load_cell(&index, &mut cache, bytes, 2, 0).value, "e");
        assert_eq!(load_cell(&index, &mut cache, bytes, 2, 1).value, "");
        assert_eq!(load_cell(&index, &mut cache, bytes, 9, 0).value, "");
    }
    assert!(load_row(&index, &mut cache, bytes, 9).unwrap().is_empty());
    assert!(cache.get(1).is_some());
}

#[test]
fn broken_text_is_reported() {
    let bytes = b"a,b\n\xff\xfe,c\n";
    assert!(CsvIndex::new(bytes).is_err());
    assert!(read_rows(bytes).is_err());
    assert!(read_row(&bytes[4..]).is_err());
}

#[test]
fn fields_have_kinds() {
    assert_eq!(csv_cell_kind("  "), CsvCellKind::Empty);
    assert_eq!(csv_cell_kind("TRUE"), CsvCellKind::Bool);
    assert_eq!(csv_cell_kind("-12"), CsvCellKind::Int);
    assert_eq!(csv_cell_kind("1.5"), CsvCellKind::Float);
    assert_eq!(csv_cell_kind("2025-01-01T10:00"), CsvCellKind::Date);
    assert_eq!(csv_cell_kind("hello"), CsvCellKind::Text);
    assert!(CsvCellKind::Date.is_strong());
    assert!(!CsvCellKind::Text.is_strong());
    assert!(is_csv_int("+5") && !is_csv_int("+") && !is_csv_int("5a"));
    assert!(is_iso_date_prefix("2025-01-01") && !is_iso_date_prefix("2025/01/01"));
    let rows = csv_rows(&[&["a", "1"], &["", " "], &["b", "2"]]);
    assert_eq!(non_empty_row_count(&rows, 0), 2);
    assert_eq!(
        infer_csv_column_types(&rows, 0, 2),
        vec![None, Some(CsvCellKind::Int)]
    );
    assert!(has_duplicate_non_empty_value(&csv_rows(&[&["x", "y", "x"]])[0]));
    assert!(!has_duplicate_non_empty_value(&csv_rows(&[&["", "y", ""]])[0]));
}

#[test]
fn caches_give_up_the_oldest_row() {
    let mut cache = RowCache::new(2);
    let row = |text: &str| {
        let mut cell = CellData::default();
        cell.value = text.to_owned();
        vec![cell]
    };
    cache.insert(1, row("one"));
    cache.insert(2, row("two"));
    cache.insert(1, row("uno"));
    assert_eq!(texts(&cache.get(1).unwrap()), vec!["uno"]);
    cache.insert(3, row("three"));
    assert!(cache.get(1).is_none());
    assert_eq!(texts(&cache.get(2).unwrap()), vec!["two"]);
    assert_eq!(texts(&cache.get(3).unwrap()), vec!["three"]);
    cache.insert_many(&vec![(4, row("four")), (5, row("five"))]);
    assert!(cache.get(2).is_none() && cache.get(3).is_none());
    assert_eq!(texts(&cache.get(5).unwrap()), vec!["five"]);
    assert_eq!(cache.capacity(), 2);
}
