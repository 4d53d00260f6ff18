//! The viewer's state.

use spread::appearance::{
    build_row_cell, cell_appearance, cell_render_state, header_background, needs_measuring,
    selection_tint, CELL_BG, CELL_TEXT, FORMULA_FALLBACK_TEXT, GRID_COLOR, HEADER_BG,
    SELECTION_INNER_BORDER,
};
use spread::cell::{CellData, CellRawValue};
use spread::layout::{RowLayout, SheetLayout};
use spread::merges::{MergeKind, SheetMerges};
use spread::namebox::{NameRef, Selection};
use spread::pixels::Pixels;
use spread::range::{CellCoord, CellRange};
use spread::sheet::{SheetData, SheetRowLayout};
use spread::viewer::{
    FreezeDrag, ResizeDrag, ScrollbarAxis, SheetShape, SummaryMetric, ViewerState,
};

fn px(length: f32) -> Pixels {
    Pixels { bits: length.to_bits() }
}

fn shape(rows: usize, cols: usize, merges: Vec<CellRange>) -> SheetShape {
    SheetShape { row_count: rows, col_count: cols, merges: SheetMerges::from_ranges(merges) }
}

fn viewer() -> ViewerState {
    ViewerState::new(
        vec![
            shape(
                100,
                10,
                vec![CellRange::new(CellCoord::new(2, 2), CellCoord::new(4, 4))],
            ),
            shape(0, 0, Vec::new()),
        ],
        0,
    )
}

fn layout(columns: usize, rows: usize) -> SheetLayout {
    SheetLayout {
        column_widths: vec![px(50.0); columns],
        rows: RowLayout::new(
            &SheetRowLayout::Uniform { row_count: rows, height: px(20.0) },
            Vec::new(),
        ),
        pinned_rows: 0,
        pinned_columns: 0,
        merges: SheetMerges::default(),
    }
}

#[test]
fn clicks_select_cells_and_their_anchors() {
    let mut viewer = viewer();
    assert!(viewer.select_cell(CellCoord::new(3, 3), false));
    assert_eq!(viewer.selection, Selection::single(CellCoord::new(2, 2)));
    assert!(!viewer.select_cell(CellCoord::new(4, 4), false));
    assert!(viewer.select_cell(CellCoord::new(9, 0), true));
    assert_eq!(viewer.selection.anchor, CellCoord::new(2, 2));
    assert_eq!(viewer.selection.range.end, CellCoord::new(9, 0));
    assert!(viewer.drag_to_cell(CellCoord::new(20, 5)));
    assert!(!viewer.drag_to_cell(CellCoord::new(20, 5)));
    viewer.release();
    assert!(!viewer.drag_to_cell(CellCoord::new(30, 5)));
    assert_eq!(viewer.selection.range.end, CellCoord::new(20, 5));
}

#[test]
fn headers_select_whole_columns_and_rows() {
    let mut viewer = viewer();
    assert!(viewer.select_col(3, false));
    assert_eq!(viewer.selection.range.start, CellCoord::new(0, 3));
    assert_eq!(viewer.selection.range.end, CellCoord::new(99, 3));
    assert!(viewer.select_col(5, true));
    assert_eq!(viewer.selection.range.start, CellCoord::new(0, 3));
    assert_eq!(viewer.selection.range.end, CellCoord::new(99, 5));
    assert!(viewer.select_row(7, false));
    assert_eq!(viewer.selection.range.end, CellCoord::new(7, 9));
    assert!(viewer.select_sheet());
    assert!(!viewer.select_sheet());
    assert_eq!(viewer.selection.range.end, CellCoord::new(99, 9));
    viewer.toggle_summary_menu();
    assert!(viewer.select_sheet());
}

#[test]
fn sheets_are_switched() {
    let mut viewer = viewer();
    viewer.select_cell(CellCoord::new(9, 9), false);
    viewer.set_vertical_offset(px(100.0), px(500.0));
    assert!(!viewer.switch_sheet(0));
    assert!(!viewer.switch_sheet(2));
    assert!(viewer.switch_sheet(1));
    assert_eq!(viewer.active_sheet, 1);
    assert_eq!(viewer.selection, Selection::single(CellCoord::new(0, 0)));
    assert_eq!(viewer.vertical_offset, px(0.0));
    assert!(!viewer.select_sheet());
    assert_eq!(viewer.selection.range.end, CellCoord::new(0, 0));
}

#[test]
fn offsets_stay_within_bounds() {
    let mut viewer = viewer();
    viewer.set_vertical_offset(px(-5.0), px(500.0));
    assert_eq!(viewer.vertical_offset, px(0.0));
    viewer.set_vertical_offset(px(900.0), px(500.0));
    assert_eq!(viewer.vertical_offset, px(500.0));
    viewer.set_vertical_offset(px(123.0), px(500.0));
    assert_eq!(viewer.vertical_offset, px(123.0));
}

#[test]
fn names_lead_to_cells() {
    let mut viewer = viewer();
    assert_eq!(
        viewer.apply_name_ref(NameRef::Cell(CellCoord::new(3, 3))),
        CellCoord::new(3, 3)
    );
    assert_eq!(viewer.selection.anchor, CellCoord::new(2, 2));
    assert_eq!(viewer.apply_name_ref(NameRef::Column(4)), CellCoord::new(0, 4));
    assert_eq!(viewer.selection.range.end, CellCoord::new(99, 4));
    assert_eq!(viewer.apply_name_ref(NameRef::Row(4)), CellCoord::new(4, 0));
    assert_eq!(viewer.selection.range.end, CellCoord::new(4, 9));
}

#[test]
fn keys_edit_the_name_box() {
    let mut viewer = viewer();
    assert!(!viewer.name_box_key_down("enter", None).changes);
    assert!(viewer.name_box_click("A1", false));
    assert!(!viewer.name_box_click("A1", false));
    assert!(viewer.name_box_key_down("backspace", None).changes);
    assert_eq!(viewer.name_box_input.as_deref(), Some("A"));
    assert!(viewer.name_box_click("A1", true));
    assert!(viewer.name_box_select_all);
    assert!(viewer.name_box_key_down("c", Some("c")).changes);
    assert_eq!(viewer.name_box_input.as_deref(), Some("c"));
    viewer.name_box_key_down("7", Some("7"));
    assert!(!viewer.name_box_key_down("tab", Some("\t")).changes);
    assert!(!viewer.name_box_key_down("shift", None).changes);
    let outcome = viewer.name_box_key_down("enter", None);
    assert!(outcome.closes && outcome.changes);
    assert_eq!(outcome.center, Some(CellCoord::new(6, 2)));
    assert_eq!(viewer.selection, Selection::single(CellCoord::new(6, 2)));
    assert_eq!(viewer.name_box_input, None);
    viewer.name_box_click("C7", false);
    viewer.name_box_key_down("!", Some("!"));
    let outcome = viewer.name_box_key_down("enter", None);
    assert!(outcome.closes && outcome.center.is_none());
    viewer.name_box_click("C7", true);
    viewer.name_box_key_down("backspace", None);
    assert_eq!(viewer.name_box_input.as_deref(), Some(""));
    viewer.name_box_key_down("backspace", None);
    assert!(viewer.name_box_key_down("escape", None).closes);
    assert_eq!(viewer.name_box_input, None);
    viewer.name_box_click("C7", true);
    viewer.name_box_blurred(true);
    assert!(viewer.name_box_input.is_some());
    viewer.name_box_blurred(false);
    assert!(viewer.name_box_input.is_none() && !viewer.name_box_select_all);
}

#[test]
fn selected_columns_are_resized_together() {
    let mut viewer = viewer();
    let layout = layout(10, 100);
    viewer.select_col(8, false);
    viewer.select_col(9, true);
    assert_eq!(viewer.resize_columns_for_drag(9), vec![8, 9]);
    assert_eq!(viewer.resize_columns_for_drag(2), vec![2]);
    assert_eq!(viewer.resize_rows_for_drag(2).len(), 100);
    viewer.start_column_resize(&layout, 8, px(300.0));
    assert!(matches!(
        &viewer.resize_drag,
        Some(ResizeDrag::Columns { start_x, .. }) if *start_x == px(300.0)
    ));
    assert_eq!(viewer.resized_from(), vec![(8, px(50.0)), (9, px(50.0))]);
    viewer.select_row(3, false);
    assert!(viewer.resize_drag.is_none());
    viewer.start_row_resize(&layout, 3, px(10.0));
    assert_eq!(viewer.resized_from(), vec![(3, px(20.0))]);
    viewer.end_resize();
    assert!(viewer.resized_from().is_empty());
}

#[test]
fn freeze_drags_pin_rows_and_columns() {
    let mut viewer = viewer();
    let mut layout = layout(10, 100);
    assert!(!viewer.pin_to(&mut layout, 3));
    viewer.start_freeze_drag(FreezeDrag::Columns { axis_origin_x: px(48.0) });
    viewer.set_vertical_offset(px(40.0), px(500.0));
    assert!(viewer.pin_to(&mut layout, 3));
    assert!(!viewer.pin_to(&mut layout, 3));
    assert_eq!(layout.pinned_columns, 3);
    assert_eq!(viewer.vertical_offset, px(40.0));
    viewer.start_freeze_drag(FreezeDrag::Rows { axis_origin_y: px(100.0) });
    assert!(viewer.pin_to(&mut layout, 999));
    assert_eq!(layout.pinned_rows, 100);
    assert_eq!(viewer.vertical_offset, px(0.0));
    viewer.end_freeze_drag();
    assert!(!viewer.pin_to(&mut layout, 0));
}

#[test]
fn dragged_sheets_follow_the_thumb_at_their_pace() {
    let mut viewer = viewer();
    let max = px(1000.0);
    viewer.drag_vertical_scrollbar(px(10.0), 0, true, max);
    assert_eq!(viewer.vertical_scroll_position(), px(0.0));
    viewer.grab_scrollbar(ScrollbarAxis::Vertical, px(5.0), px(0.0), 1_000);
    assert_eq!(viewer.drag_pointer_offset(ScrollbarAxis::Vertical), Some(px(5.0)));
    assert_eq!(viewer.drag_pointer_offset(ScrollbarAxis::Horizontal), None);
    viewer.drag_vertical_scrollbar(px(10.0), 50_000_999, true, max);
    assert_eq!(viewer.vertical_offset, px(0.0));
    assert_eq!(viewer.vertical_scroll_position(), px(10.0));
    viewer.drag_vertical_scrollbar(px(20.0), 50_001_000, true, max);
    assert_eq!(viewer.vertical_offset, px(20.0));
    viewer.drag_vertical_scrollbar(px(30.0), 150_000_000, false, max);
    assert_eq!(viewer.vertical_offset, px(20.0));
    viewer.drag_vertical_scrollbar(px(2000.0), 150_000_001, false, max);
    viewer.release_vertical_scrollbar(max);
    assert_eq!(viewer.vertical_offset, px(1000.0));
    viewer.grab_scrollbar(ScrollbarAxis::Horizontal, px(7.0), px(0.0), 0);
    assert_eq!(viewer.drag_pointer_offset(ScrollbarAxis::Horizontal), Some(px(7.0)));
    viewer.release_horizontal_scrollbar();
    assert_eq!(viewer.drag_pointer_offset(ScrollbarAxis::Horizontal), None);
}

#[test]
fn metrics_are_chosen_from_a_menu() {
    let mut viewer = viewer();
    assert_eq!(viewer.summary_metric, SummaryMetric::Sum);
    viewer.toggle_summary_menu();
    assert!(viewer.show_summary_menu);
    viewer.choose_metric(SummaryMetric::Max);
    assert!(!viewer.show_summary_menu);
    assert_eq!(viewer.summary_metric.label(), "Max");
    assert_eq!(SummaryMetric::Mean.label(), "Mean");
}

#[test]
fn cells_are_painted_by_their_style_and_selection() {
    let mut styled = CellData {
        value: "a\nb".to_owned(),
        raw_value: CellRawValue::Text,
        ..Default::default()
    };
    styled.style.bold = true;
    styled.style.background_color = Some(0xff_e9_b0);
    let formula = CellData { formula: Some("A1".to_owned()), ..Default::default() };
    let sheet = SheetData::new(
        None,
        vec![vec![styled, formula]],
        Vec::new(),
        &Vec::new(),
        px(120.0),
        px(24.0),
        &vec![px(24.0)],
    )
    .with_merges(SheetMerges::from_ranges(vec![CellRange::new(
        CellCoord::new(0, 1),
        CellCoord::new(0, 2),
    )]));
    assert!(needs_measuring(&sheet.cell_data(0, 0)));
    assert!(!needs_measuring(&sheet.cell_data(0, 1)));
    let first = build_row_cell(&sheet, 0, 0, px(14.0));
    assert_eq!(first.text, "a\nb");
    let plain = cell_appearance(&first, false, false);
    assert_eq!(plain.text_color, CELL_TEXT);
    assert_eq!(plain.background, 0xff_e9_b0);
    assert_eq!(plain.border_color, GRID_COLOR);
    assert!(plain.multiline && plain.bold && !plain.merged && !plain.highlighted);
    let selected = cell_appearance(&first, true, false);
    assert_eq!(selected.background, selection_tint(0xff_e9_b0));
    assert_eq!(selected.border_color, SELECTION_INNER_BORDER);
    assert!(selected.highlighted);
    assert_eq!(cell_appearance(&first, true, true).background, 0xff_e9_b0);
    let second = build_row_cell(&sheet, 0, 1, px(0.0));
    assert_eq!(second.text, "=A1");
    assert_eq!(second.merge, MergeKind::Anchor);
    let fallback = cell_appearance(&second, false, false);
    assert_eq!(fallback.text_color, FORMULA_FALLBACK_TEXT);
    assert_eq!(fallback.background, CELL_BG);
    assert!(fallback.merged);
    assert_eq!(header_background(false), HEADER_BG);
    assert_eq!(header_background(true), selection_tint(HEADER_BG));
}

#[test]
fn selections_mark_their_cells() {
    let selection = Selection::select_range(CellCoord::new(3, 3), CellCoord::new(1, 1));
    let state = cell_render_state(selection, CellCoord::new(3, 3));
    assert!(state.selected && state.active);
    assert!(state.selection_edges.bottom() && state.selection_edges.right());
    assert!(!state.selection_edges.top() && !state.selection_edges.left());
    let outside = cell_render_state(selection, CellCoord::new(0, 0));
    assert!(!outside.selected && !outside.active && !outside.selection_edges.any());
}
