//! Cell references, ranges and the name box.

use spread::namebox::{
    cell_address, column_index, formula_bar_value, name_box_label, parse_name_box_reference,
    row_number_label, NameRef, Selection,
};
use spread::cell::CellData;
use spread::merges::{MergeKind, SheetMerges};
use spread::numbers::{add_grouping, is_float, padded_hex_text, parse_usize};
use spread::pixels::Pixels;
use spread::range::{CellCoord, CellRange};
use spread::references::{
    cell_label, cell_ref_to_indices, checked_cell_ref, checked_merge_ref, column_label,
    column_name, parse_merge_ref,
};
use spread::sheet::SheetData;

fn px(length: f32) -> Pixels {
    Pixels { bits: length.to_bits() }
}

#[test]
fn parses_merged_range_references() {
    let range = parse_merge_ref("A1:I1").expect("valid ref");
    assert_eq!(range.start, CellCoord::new(0, 0));
    assert_eq!(range.end, CellCoord::new(0, 8));

    let range = parse_merge_ref("B3:D6").expect("valid ref");
    assert_eq!(range.start, CellCoord::new(2, 1));
    assert_eq!(range.end, CellCoord::new(5, 3));

    assert!(parse_merge_ref("A1").is_none());
    assert!(parse_merge_ref("nonsense").is_none());
}

#[test]
fn cell_range_identifies_selection_edges() {
    let range = CellRange::new(CellCoord::new(1, 1), CellCoord::new(3, 3));

    assert!(range.edge_sides(1, 2).top());
    assert!(range.edge_sides(2, 1).left());
    assert!(range.edge_sides(3, 2).bottom());
    assert!(range.edge_sides(2, 3).right());
    assert!(!range.edge_sides(2, 2).any());
    assert!(!range.edge_sides(4, 2).any());
}

#[test]
fn column_names_match_spreadsheet_labels() {
    assert_eq!(column_name(0), "A");
    assert_eq!(column_name(25), "Z");
    assert_eq!(column_name(26), "AA");
    assert_eq!(column_name(27), "AB");
    assert_eq!(column_name(701), "ZZ");
    assert_eq!(column_name(702), "AAA");
    assert_eq!(column_label(702), "AAA");
}

#[test]
fn column_index_inverts_column_name() {
    assert_eq!(column_index("A"), Some(0));
    assert_eq!(column_index("Z"), Some(25));
    assert_eq!(column_index("AA"), Some(26));
    assert_eq!(column_index("AB"), Some(27));
    assert_eq!(column_index("ZZ"), Some(701));
    assert_eq!(column_index("AAA"), Some(702));
}

#[test]
fn column_index_reports_columns_that_do_not_fit() {
    assert_eq!(column_index(""), None);
    assert_eq!(column_index("ZZZZZZZZZZZZZZZZ"), None);
}

#[test]
fn parses_column_row_and_cell_references() {
    assert_eq!(parse_name_box_reference("A", 10, 1000), Some(NameRef::Column(0)));
    assert_eq!(parse_name_box_reference("100", 10, 1000), Some(NameRef::Row(99)));
    assert_eq!(
        parse_name_box_reference(" b101 ", 10, 1000),
        Some(NameRef::Cell(CellCoord::new(100, 1)))
    );
}

#[test]
fn name_box_references_clamp_and_reject_bad_input() {
    assert_eq!(parse_name_box_reference("ZZ", 3, 5), Some(NameRef::Column(2)));
    assert_eq!(parse_name_box_reference("9999", 3, 5), Some(NameRef::Row(4)));
    assert_eq!(parse_name_box_reference("", 3, 5), None);
    assert_eq!(parse_name_box_reference("1A", 3, 5), None);
    assert_eq!(parse_name_box_reference("A0", 3, 5), None);
    assert_eq!(parse_name_box_reference("A1!", 3, 5), None);
    assert_eq!(parse_name_box_reference("A1", 0, 0), None);
}

#[test]
fn name_box_references_clamp_however_large_they_are() {
    assert_eq!(
        parse_name_box_reference("99999999999999999999", 10, 1000),
        Some(NameRef::Row(999))
    );
    assert_eq!(parse_name_box_reference("ZZZZZZZZZZZZZZZZ", 3, 5), Some(NameRef::Column(2)));
    assert_eq!(
        parse_name_box_reference("zzzzzzzzzzzzzzzz99999999999999999999999", 3, 5),
        Some(NameRef::Cell(CellCoord::new(4, 2)))
    );
    assert_eq!(
        parse_name_box_reference("18446744073709551615", 1, usize::MAX),
        Some(NameRef::Row(usize::MAX - 1))
    );
    assert_eq!(
        parse_name_box_reference("18446744073709551616", 1, usize::MAX),
        Some(NameRef::Row(usize::MAX - 1))
    );
    assert_eq!(parse_name_box_reference("A0", 3, 5), None);
    assert_eq!(parse_name_box_reference("00", 3, 5), None);
}

#[test]
fn addresses_lead_back_to_their_cells() {
    for row in [0, 1, 9, 99, 1_000_000] {
        for col in [0, 25, 26, 701, 702] {
            let address = cell_address(CellCoord::new(row, col));
            assert_eq!(
                parse_name_box_reference(&address, 1000, 2_000_000),
                Some(NameRef::Cell(CellCoord::new(row, col)))
            );
            assert_eq!(cell_ref_to_indices(&address), Some((row, col)));
            assert_eq!(cell_label(row, col), address);
        }
    }
}

#[test]
fn references_take_digits_and_letters_in_any_order() {
    assert_eq!(cell_ref_to_indices("B3"), Some((2, 1)));
    assert_eq!(cell_ref_to_indices("b3"), Some((2, 1)));
    assert_eq!(cell_ref_to_indices("$B$3"), Some((2, 1)));
    assert_eq!(cell_ref_to_indices("B"), None);
    assert_eq!(cell_ref_to_indices("3"), None);
    assert_eq!(cell_ref_to_indices("B0"), None);
    assert_eq!(checked_cell_ref("ZZZZZZZZZZZZZZZZ1"), None);
    assert_eq!(checked_merge_ref("ZZZZZZZZZZZZZZZZ1:A2"), None);
    assert_eq!(checked_merge_ref("A1 : B2"), Some(parse_merge_ref("A1:B2")));
}

#[test]
fn row_number_labels_use_thousand_separators() {
    assert_eq!(row_number_label(1), "1");
    assert_eq!(row_number_label(999), "999");
    assert_eq!(row_number_label(1_000), "1,000");
    assert_eq!(row_number_label(240_041), "240,041");
    assert_eq!(row_number_label(1_000_000), "1,000,000");
}

#[test]
fn name_box_shows_columns_rows_and_cells() {
    let column = Selection::select_range(CellCoord::new(0, 1), CellCoord::new(9, 1));
    assert_eq!(name_box_label(column, 10, 4), "B");
    let columns = Selection::select_range(CellCoord::new(0, 2), CellCoord::new(9, 1));
    assert_eq!(name_box_label(columns, 10, 4), "B:C");
    let row = Selection::select_range(CellCoord::new(4, 0), CellCoord::new(4, 3));
    assert_eq!(name_box_label(row, 10, 4), "5");
    let rows = Selection::select_range(CellCoord::new(4, 0), CellCoord::new(6, 3));
    assert_eq!(name_box_label(rows, 10, 4), "5:7");
    let everything = Selection::select_range(CellCoord::new(0, 0), CellCoord::new(9, 3));
    assert_eq!(name_box_label(everything, 10, 4), "A1");
    let cell = Selection::single(CellCoord::new(2, 3));
    assert_eq!(name_box_label(cell, 10, 4), "D3");
    assert_eq!(cell.extend_to(CellCoord::new(0, 0)).anchor, CellCoord::new(2, 3));
    assert!(cell.extend_to(CellCoord::new(0, 0)).contains(1, 1));
}

#[test]
fn formula_bar_shows_the_formula_or_the_value() {
    let mut with_formula = CellData::default();
    with_formula.value = "3".to_owned();
    with_formula.formula = Some("A1+2".to_owned());
    let mut plain = CellData::default();
    plain.value = "text".to_owned();
    let sheet = SheetData::new(
        None,
        vec![vec![with_formula, plain]],
        Vec::new(),
        &Vec::new(),
        px(120.0),
        px(24.0),
        &vec![px(24.0)],
    );
    assert_eq!(formula_bar_value(&sheet, Selection::single(CellCoord::new(0, 0))), "=A1+2");
    assert_eq!(formula_bar_value(&sheet, Selection::single(CellCoord::new(0, 1))), "text");
    assert_eq!(formula_bar_value(&sheet, Selection::single(CellCoord::new(7, 7))), "");
}

#[test]
fn normalizing_orders_the_corners() {
    let range = CellRange::new(CellCoord::new(5, 1), CellCoord::new(2, 4));
    let normalized = range.normalized();
    assert_eq!(normalized.start, CellCoord::new(2, 1));
    assert_eq!(normalized.end, CellCoord::new(5, 4));
    for row in 0..8 {
        for col in 0..8 {
            assert_eq!(range.contains(row, col), normalized.contains(row, col));
        }
    }
    assert!(range.intersects_row(3) && !range.intersects_row(6));
    assert!(range.intersects_col(1) && !range.intersects_col(5));
    assert_eq!(range.cell_count(), 16);
    assert_eq!(CellRange::single(CellCoord::new(3, 3)).cell_count(), 1);
}

#[test]
fn outline_sides_have_a_neighbor_outside() {
    let range = CellRange::new(CellCoord::new(1, 1), CellCoord::new(2, 3));
    for row in 0..4 {
        for col in 0..5 {
            let edges = range.edge_sides(row, col);
            if edges.top() {
                assert!(range.contains(row, col) && !range.contains(row - 1, col));
            }
            if edges.right() {
                assert!(range.contains(row, col) && !range.contains(row, col + 1));
            }
            if edges.bottom() {
                assert!(range.contains(row, col) && !range.contains(row + 1, col));
            }
            if edges.left() {
                assert!(range.contains(row, col) && !range.contains(row, col - 1));
            }
        }
    }
}

#[test]
fn merged_cells_stand_for_their_anchor() {
    let merges = SheetMerges::from_ranges(vec![
        CellRange::new(CellCoord::new(3, 2), CellCoord::new(1, 1)),
        CellRange::new(CellCoord::new(6, 6), CellCoord::new(6, 8)),
    ]);
    assert_eq!(merges.merge_kind(1, 1), MergeKind::Anchor);
    assert_eq!(merges.merge_kind(2, 2), MergeKind::Covered);
    assert_eq!(merges.merge_kind(0, 0), MergeKind::Unmerged);
    assert_eq!(merges.anchor_coord(CellCoord::new(3, 2)), CellCoord::new(1, 1));
    assert_eq!(merges.anchor_coord(CellCoord::new(1, 1)), CellCoord::new(1, 1));
    assert_eq!(merges.anchor_coord(CellCoord::new(9, 9)), CellCoord::new(9, 9));
    assert_eq!(merges.covered_anchor(6, 7), Some(CellCoord::new(6, 6)));
    assert_eq!(
        merges.anchor_at(1, 1),
        Some(CellRange::new(CellCoord::new(1, 1), CellCoord::new(3, 2)))
    );
    assert_eq!(merges.regions().len(), 2);
}

#[test]
fn numbers_are_written_and_read() {
    assert_eq!(add_grouping("1234567"), "1,234,567");
    assert_eq!(add_grouping("123"), "123");
    assert_eq!(parse_usize("042"), Some(42));
    assert_eq!(parse_usize("+7"), Some(7));
    assert_eq!(parse_usize(""), None);
    assert_eq!(parse_usize("-1"), None);
    assert_eq!(parse_usize("99999999999999999999999"), None);
    assert_eq!(padded_hex_text(0x00_ab_0f, 6), "00ab0f");
    for text in ["1.5", "-3e7", ".5", "5.", "inf", "NaN", "1E-3"] {
        assert!(is_float(text), "{text}");
        assert!(text.parse::<f64>().is_ok());
    }
    for text in ["", ".", "e5", "1e", "--1", "1_000", "0x10"] {
        assert!(!is_float(text), "{text}");
        assert!(text.parse::<f64>().is_err());
    }
}
