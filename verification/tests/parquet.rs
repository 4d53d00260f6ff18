//! Parquet files: windows of rows and record batches.

use std::sync::Arc;

use arrow_array::{
    ArrayRef, BooleanArray, Date32Array, Float32Array, Float64Array, Int16Array, Int32Array,
    Int64Array, Int8Array, RecordBatch, StringArray, UInt16Array, UInt32Array, UInt64Array,
    UInt8Array,
};
use spread::batch::{read_batch, record_batch_row_to_cells, ArrowRaw, ArrowValue, Batch};
use spread::cache::RowCache;
use spread::cell::{CellData, CellRawValue};
use spread::parquet_source::{
    cache_window, data_row_for, header_cell, place_row_groups, plan_window,
    row_group_for_data_row, row_selection_for_range, sheet_row_count, ParquetRowGroup, RowRun,
    PARQUET_ROW_CACHE_CAPACITY,
};

fn number_bits(value: &ArrowValue) -> u64 {
    match value.raw {
        ArrowRaw::Signed(number) => (number as f64).to_bits(),
        ArrowRaw::Unsigned(number) => (number as f64).to_bits(),
        ArrowRaw::Single(bits) => f64::from(f32::from_bits(bits)).to_bits(),
        _ => 0,
    }
}

#[test]
fn values_become_cells() {
    let columns: Vec<(&str, ArrayRef)> = vec![
        ("a", Arc::new(Int8Array::from(vec![Some(-1), None]))),
        ("b", Arc::new(Int16Array::from(vec![-2, 2]))),
        ("c", Arc::new(Int32Array::from(vec![-3, 3]))),
        ("d", Arc::new(Int64Array::from(vec![-4, 4]))),
        ("e", Arc::new(UInt8Array::from(vec![1, 2]))),
        ("f", Arc::new(UInt16Array::from(vec![1, 2]))),
        ("g", Arc::new(UInt32Array::from(vec![1, 2]))),
        ("h", Arc::new(UInt64Array::from(vec![u64::MAX, 2]))),
        ("i", Arc::new(Float32Array::from(vec![1.5, 2.5]))),
        ("j", Arc::new(Float64Array::from(vec![0.1, 0.2]))),
        ("k", Arc::new(BooleanArray::from(vec![true, false]))),
        ("l", Arc::new(StringArray::from(vec!["x", "y"]))),
        ("m", Arc::new(Date32Array::from(vec![0, 1]))),
    ];
    let batch = Batch { records: RecordBatch::try_from_iter(columns).unwrap() };
    let rows = read_batch(&batch);
    assert_eq!(rows.len(), 2);
    assert_eq!(rows[0].len(), 13);
    assert_eq!(rows[0][0].raw, ArrowRaw::Signed(-1));
    assert_eq!(rows[0][7].raw, ArrowRaw::Unsigned(u64::MAX));
    let bits = rows[0].iter().map(number_bits).collect();
    let cells = record_batch_row_to_cells(&rows[0], &bits);
    let texts: Vec<&str> = cells.iter().map(|cell| cell.value.as_str()).collect();
    assert_eq!(
        texts,
        vec![
            "-1", "-2", "-3", "-4", "1", "1", "1", "18446744073709551615", "1.5", "0.1", "true",
            "x", "1970-01-01"
        ]
    );
    let number = |value: f64| CellRawValue::Number { bits: value.to_bits() };
    assert_eq!(cells[0].raw_value, number(-1.0));
    assert_eq!(cells[1].raw_value, number(-2.0));
    assert_eq!(cells[7].raw_value, number(u64::MAX as f64));
    assert_eq!(cells[8].raw_value, number(1.5));
    assert_eq!(cells[9].raw_value, number(0.1));
    assert_eq!(cells[10].raw_value, CellRawValue::Bool(true));
    assert_eq!(cells[11].raw_value, CellRawValue::Text);
    assert_eq!(cells[12].raw_value, CellRawValue::DateTime);
    let bits = rows[1].iter().map(number_bits).collect();
    let cells = record_batch_row_to_cells(&rows[1], &bits);
    assert_eq!(cells[0].value, "");
    assert_eq!(cells[0].raw_value, CellRawValue::Empty);
    assert_eq!(cells[1].value, "2");
}

#[test]
fn unreadable_values_say_so() {
    let value = ArrowValue {
        null: false,
        text: Err("bad".to_owned()),
        raw: ArrowRaw::Other,
    };
    let cells = record_batch_row_to_cells(&vec![value], &vec![0]);
    assert_eq!(cells[0].value, "<error: bad>");
}

#[test]
fn rows_are_read_in_windows() {
    let groups = place_row_groups(&vec![600, 0, 100]);
    assert_eq!(groups[2], ParquetRowGroup { start_row: 600, row_count: 100 });
    assert_eq!(row_group_for_data_row(&groups, 599).map(|(ix, _)| ix), Some(0));
    assert_eq!(row_group_for_data_row(&groups, 600).map(|(ix, _)| ix), Some(2));
    assert_eq!(row_group_for_data_row(&groups, 700), None);
    let window = plan_window(&groups, 300).unwrap();
    assert_eq!((window.group, window.start_in_group, window.row_count), (0, 256, 256));
    assert_eq!(window.first_row, 256);
    assert_eq!(
        window.runs,
        vec![
            RowRun { row_count: 256, skip: true },
            RowRun { row_count: 256, skip: false },
            RowRun { row_count: 88, skip: true },
        ]
    );
    let last = plan_window(&groups, 599).unwrap();
    assert_eq!((last.start_in_group, last.row_count), (512, 88));
    assert!(plan_window(&groups, 700).is_none());
    assert_eq!(
        row_selection_for_range(0, 5, 5),
        vec![RowRun { row_count: 5, skip: false }]
    );
    assert_eq!(row_selection_for_range(0, 0, 5), vec![RowRun { row_count: 5, skip: true }]);
}

#[test]
fn wanted_rows_stay_in_the_cache() {
    let row = |text: String| {
        let mut cell = CellData::default();
        cell.value = text;
        vec![cell]
    };
    let mut cache = RowCache::new(PARQUET_ROW_CACHE_CAPACITY);
    for start in (0..4096).step_by(256) {
        let rows = (start..start + 256).map(|ix| row(ix.to_string())).collect();
        cache_window(&mut cache, start, rows);
        assert_eq!(cache.get(start).unwrap()[0].value, start.to_string());
        assert_eq!(cache.get(start + 255).unwrap()[0].value, (start + 255).to_string());
    }
    assert!(cache.get(0).is_none());
    assert!(cache.get(2048).is_some());
}

#[test]
fn headers_stand_above_the_rows() {
    let names = vec!["id".to_owned()];
    let header = header_cell(&names, 0);
    assert_eq!(header.value, "id");
    assert!(header.style.bold);
    assert_eq!(header.raw_value, CellRawValue::Text);
    assert_eq!(header_cell(&names, 1).value, "");
    assert_eq!(sheet_row_count(10, 1), 11);
    assert_eq!(sheet_row_count(10, 0), 10);
    assert_eq!(sheet_row_count(usize::MAX, 1), usize::MAX);
    assert_eq!(data_row_for(0, 1), None);
    assert_eq!(data_row_for(3, 1), Some(2));
    assert_eq!(data_row_for(3, 0), Some(3));
}
