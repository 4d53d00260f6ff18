//! The layout of sheets on the screen.

use spread::appearance::{cell_display_text, selection_tint, CELL_BG};
use spread::cell::{CellData, CellRawValue};
use spread::layout::{
    freeze_target_for_sizes, overflow_ends, partition_point, scrollbar_need, scrollbar_visibility,
    vertical_scroll_drag_update_interval, Distance, RowCell, RowLayout, ScrollbarVisibility,
    SheetLayout, MIN_COLUMN_WIDTH_BITS, MIN_ROW_HEIGHT_BITS, ROW_RENDER_OVERSCAN,
};
use spread::lines::line_count;
use spread::merges::{MergeKind, SheetMerges};
use spread::namebox::row_number_label;
use spread::pixels::Pixels;
use spread::range::{CellCoord, CellRange};
use spread::sheet::SheetRowLayout;

const MIN_COLUMN_WIDTH: f32 = 24.0;
const MIN_ROW_HEIGHT: f32 = 18.0;
const MIN_ROW_HEADER_WIDTH: f32 = 48.0;
const TITLE_BAR_HEIGHT: f32 = 40.0;
const FORMULA_BAR_HEIGHT: f32 = 36.0;
const HEADER_HEIGHT: f32 = 24.0;
const FOOTER_HEIGHT: f32 = 32.0;
const SCROLLBAR_SIZE: f32 = 12.0;

fn px(length: f32) -> Pixels {
    Pixels { bits: length.to_bits() }
}

fn length(pixels: Pixels) -> f32 {
    f32::from_bits(pixels.bits)
}

fn sums(sizes: impl Iterator<Item = f32>) -> Vec<Pixels> {
    let mut offsets = vec![px(0.0)];
    let mut current = 0.0;
    for size in sizes {
        current += size;
        offsets.push(px(current));
    }
    offsets
}

fn explicit_rows(heights: Vec<f32>) -> RowLayout {
    let offsets = sums(heights.iter().map(|height| height.max(MIN_ROW_HEIGHT)));
    let heights = heights.into_iter().map(px).collect();
    RowLayout::from_explicit_heights(&heights, offsets)
}

fn layout(column_widths: Vec<f32>, rows: RowLayout) -> SheetLayout {
    SheetLayout {
        column_widths: column_widths.into_iter().map(px).collect(),
        rows,
        pinned_rows: 0,
        pinned_columns: 0,
        merges: SheetMerges::default(),
    }
}

fn layout_with_columns(column_widths: Vec<f32>) -> SheetLayout {
    layout(column_widths, explicit_rows(vec![24.0]))
}

fn total(sizes: Vec<Pixels>) -> f32 {
    sizes.into_iter().map(length).sum()
}

fn distance(distance: Distance) -> f32 {
    match distance {
        Distance::Nothing => 0.0,
        Distance::Rows { count, height } => count as f32 * length(height),
        Distance::Offset(offset) => length(offset),
    }
}

fn columns_width(layout: &SheetLayout, start: usize, end: usize) -> f32 {
    total(layout.columns_between(start, end))
}

fn rows_height(layout: &SheetLayout, start: usize, end: usize) -> f32 {
    total(layout.rows_between(start, end))
}

fn sheet_height(layout: &SheetLayout) -> f32 {
    distance(layout.rows.sheet_height())
}

fn scrollable_height(layout: &SheetLayout) -> f32 {
    (sheet_height(layout) - rows_height(layout, 0, layout.pinned_rows)).max(0.0)
}

fn scrollable_width(layout: &SheetLayout) -> f32 {
    let all = columns_width(layout, 0, layout.column_widths.len());
    (all - columns_width(layout, 0, layout.pinned_columns)).max(0.0)
}

fn row_start(layout: &SheetLayout, row: usize) -> f32 {
    distance(layout.rows.scroll_position_for_row(row))
}

fn row_at(layout: &SheetLayout, position: f32) -> usize {
    let fitting = match &layout.rows {
        RowLayout::Uniform { height, .. } => (position.max(0.0) / length(*height)) as usize,
        RowLayout::Explicit { .. } => 0,
    };
    layout.rows.row_at(px(position), fitting)
}

fn visible_columns(layout: &SheetLayout, scroll: f32, viewport: f32) -> (usize, usize) {
    let scrollable = layout.columns_between(layout.pinned_columns, layout.column_widths.len());
    let offsets = sums(scrollable.into_iter().map(length));
    let scroll = scroll.max(0.0);
    layout.visible_scrollable_column_range(px(viewport), &offsets, px(scroll), px(scroll + viewport))
}

fn visible_rows(layout: &SheetLayout, scroll: f32, viewport: f32) -> (usize, usize) {
    let top = scroll.max(0.0) + rows_height(layout, 0, layout.pinned_rows);
    layout.visible_scrollable_row_range(
        px(viewport),
        row_at(layout, top),
        row_at(layout, top + viewport),
    )
}

fn middles(sizes: impl Iterator<Item = f32>) -> Vec<Pixels> {
    let mut boundary = 0.0;
    sizes
        .map(|size| {
            let middle = boundary + size / 2.0;
            boundary += size;
            px(middle)
        })
        .collect()
}

fn freeze_target_column(layout: &SheetLayout, pointer: f32) -> usize {
    let columns = layout.column_widths.len();
    let middles = middles(layout.columns_between(0, columns).into_iter().map(length));
    freeze_target_for_sizes(px(pointer), &middles)
}

fn freeze_target_row(layout: &SheetLayout, pointer: f32) -> usize {
    let rows = layout.rows.row_count();
    let middles = middles(layout.rows_between(0, rows).into_iter().map(length));
    freeze_target_for_sizes(px(pointer), &middles)
}

fn scrollbars(layout: &SheetLayout, body_width: f32, body_height: f32) -> ScrollbarVisibility {
    let pinned_width = columns_width(layout, 0, layout.pinned_columns);
    let pinned_height = rows_height(layout, 0, layout.pinned_rows);
    let room = |size: f32, pinned: f32| px((size - pinned).max(0.0));
    scrollbar_visibility(
        scrollbar_need(
            px(scrollable_width(layout)),
            room(body_width, pinned_width),
            room((body_width - SCROLLBAR_SIZE).max(0.0), pinned_width),
        ),
        scrollbar_need(
            px(scrollable_height(layout)),
            room(body_height, pinned_height),
            room((body_height - SCROLLBAR_SIZE).max(0.0), pinned_height),
        ),
    )
}

fn scrollbar_visibility_for_window_size(
    layout: &SheetLayout,
    formula_height: f32,
    window_width: f32,
    window_height: f32,
) -> ScrollbarVisibility {
    scrollbars(
        layout,
        (window_width - MIN_ROW_HEADER_WIDTH).max(0.0),
        (window_height - TITLE_BAR_HEIGHT - formula_height - HEADER_HEIGHT - FOOTER_HEIGHT)
            .max(0.0),
    )
}

fn fixed_view_height() -> f32 {
    TITLE_BAR_HEIGHT + FORMULA_BAR_HEIGHT + HEADER_HEIGHT + FOOTER_HEIGHT
}

fn test_layout(sheet_width: f32, sheet_height: f32) -> SheetLayout {
    layout(vec![sheet_width], explicit_rows(vec![sheet_height]))
}

fn row_header_width(row_count: usize) -> f32 {
    (row_number_label(row_count.max(1)).len() as f32 * 7.0 + 14.0).max(MIN_ROW_HEADER_WIDTH)
}

fn formula_bar_height(value: &str) -> f32 {
    let lines = line_count(value);
    if lines <= 1 {
        FORMULA_BAR_HEIGHT
    } else {
        (lines as f32 * 17.0 + 12.0).max(FORMULA_BAR_HEIGHT)
    }
}

fn overflow_text_widths(cells: &Vec<RowCell>, layout: &SheetLayout) -> Vec<Option<f32>> {
    let content: Vec<Pixels> = (0..cells.len())
        .map(|col| px((length(layout.column_width(col)) - 16.0).max(0.0)))
        .collect();
    overflow_ends(cells, &content)
        .into_iter()
        .enumerate()
        .map(|(col, end)| end.map(|end| columns_width(layout, col, end)))
        .collect()
}

fn row_cell(text: &str, raw_value: CellRawValue, text_width: f32) -> RowCell {
    RowCell {
        data: CellData { value: text.to_owned(), raw_value, ..Default::default() },
        text: text.to_owned(),
        text_width: px(text_width),
        formula_fallback: false,
        merge: MergeKind::Unmerged,
    }
}

fn text_row_cell(text: &str) -> RowCell {
    row_cell(text, CellRawValue::Text, text.chars().count() as f32 * 7.0)
}

fn empty_row_cell() -> RowCell {
    row_cell("", CellRawValue::Empty, 0.0)
}

fn merged_row_cell(merge: MergeKind) -> RowCell {
    RowCell { merge, ..empty_row_cell() }
}

fn assert_float_eq(left: f32, right: f32) {
    assert!((left - right).abs() < f32::EPSILON, "{left} != {right}");
}

#[test]
fn formula_bar_expands_for_multiline_values() {
    assert_float_eq(formula_bar_height("one line"), FORMULA_BAR_HEIGHT);
    assert!(formula_bar_height("line 1\nline 2\nline 3") > FORMULA_BAR_HEIGHT);
}

#[test]
fn blank_cached_formula_displays_formula_fallback() {
    let formula_cell = CellData {
        value: String::new(),
        formula: Some("'Engineering'!B7".to_owned()),
        ..Default::default()
    };
    let cached_formula_cell = CellData {
        value: "18".to_owned(),
        formula: Some("'Engineering'!B7".to_owned()),
        ..Default::default()
    };

    assert_eq!(cell_display_text(&formula_cell), ("='Engineering'!B7".to_owned(), true));
    assert_eq!(cell_display_text(&cached_formula_cell), ("18".to_owned(), false));
}

#[test]
fn sheet_layout_resizes_columns_and_rows_with_minimums() {
    let mut layout = layout(vec![100.0, 120.0], explicit_rows(vec![24.0, 30.0]));

    layout.set_column_widths(&vec![(0, px(140.0)), (1, px(1.0)), (9, px(50.0))]);
    assert!(layout.rows.set_row_heights(&vec![(0, px(40.0)), (1, px(1.0))], false));
    let offsets = sums(layout.rows_between(0, 2).into_iter().map(length));
    layout.rows.set_row_offsets(offsets);

    assert_float_eq(length(layout.column_width(0)), 140.0);
    assert_float_eq(length(layout.column_width(1)), MIN_COLUMN_WIDTH);
    assert_float_eq(columns_width(&layout, 0, 2), 140.0 + MIN_COLUMN_WIDTH);
    assert_float_eq(length(layout.row_height(0)), 40.0);
    assert_float_eq(length(layout.row_height(1)), MIN_ROW_HEIGHT);
    assert_float_eq(sheet_height(&layout), 40.0 + MIN_ROW_HEIGHT);
    let row_ix = row_at(&layout, 41.0);
    assert_eq!(row_ix, 1);
    assert_float_eq(41.0 - row_start(&layout, row_ix), 1.0);
    assert_float_eq(row_start(&layout, 1) + 3.0, 43.0);
}

#[test]
fn regions_make_up_the_sheet() {
    let mut layout = layout_with_columns(vec![50.0, 60.0, 70.0]);
    layout.rows = explicit_rows(vec![20.0, 30.0]);
    for line in 0..5 {
        let mut columns = layout.columns_between(0, line);
        columns.extend(layout.columns_between(line, 3));
        assert_eq!(columns, layout.column_widths);
        let mut rows = layout.rows_between(0, line);
        rows.extend(layout.rows_between(line, 9));
        assert_eq!(rows, vec![px(20.0), px(30.0)]);
    }
    assert_eq!(layout.columns_between(2, 1), vec![]);
}

#[test]
fn rows_begin_where_those_before_them_end() {
    let explicit = explicit_rows(vec![20.0, 30.0]);
    assert_eq!(explicit.sheet_height(), Distance::Offset(px(50.0)));
    assert_eq!(explicit.scroll_position_for_row(1), Distance::Offset(px(20.0)));
    assert_eq!(explicit.scroll_position_for_row(2), Distance::Offset(px(50.0)));
    assert_eq!(explicit.scroll_position_for_row(3), Distance::Nothing);
    let height = px(20.0);
    let uniform = RowLayout::Uniform { row_count: 4, height };
    assert_eq!(uniform.sheet_height(), Distance::Rows { count: 4, height });
    assert_eq!(uniform.scroll_position_for_row(2), Distance::Rows { count: 2, height });
    assert_eq!(uniform.scroll_position_for_row(9), Distance::Rows { count: 3, height });
    let empty = RowLayout::Uniform { row_count: 0, height };
    assert_eq!(empty.scroll_position_for_row(0), Distance::Nothing);
}

#[test]
fn least_sizes_are_their_bit_patterns() {
    assert_float_eq(f32::from_bits(MIN_COLUMN_WIDTH_BITS), MIN_COLUMN_WIDTH);
    assert_float_eq(f32::from_bits(MIN_ROW_HEIGHT_BITS), MIN_ROW_HEIGHT);
}

#[test]
fn sheet_layout_clamps_pinned_rows_and_columns_to_bounds() {
    let mut layout = layout_with_columns(vec![50.0, 60.0]);
    layout.rows = explicit_rows(vec![20.0, 30.0, 40.0]);

    assert!(layout.set_pinned_columns(99));
    assert!(layout.set_pinned_rows(99));

    assert_eq!(layout.pinned_columns, 2);
    assert_eq!(layout.pinned_rows, 3);
    assert_float_eq(columns_width(&layout, 0, layout.pinned_columns), 110.0);
    assert_float_eq(rows_height(&layout, 0, layout.pinned_rows), 90.0);
    assert_float_eq(scrollable_width(&layout), 0.0);
    assert_float_eq(scrollable_height(&layout), 0.0);
    assert!(!layout.set_pinned_columns(7));
}

#[test]
fn visible_scrollable_column_range_uses_viewport_with_overscan() {
    let mut layout = layout_with_columns(vec![50.0, 60.0, 70.0, 80.0, 90.0, 100.0]);
    layout.set_pinned_columns(1);

    assert_eq!(visible_columns(&layout, 0.0, 130.0), (1, 5));
    assert_eq!(visible_columns(&layout, 260.0, 60.0), (2, 6));
    assert_eq!(visible_columns(&layout, 0.0, 0.0), (1, 1));
}

#[test]
fn freeze_targets_snap_to_nearest_column_and_row_boundary() {
    let mut layout = layout_with_columns(vec![50.0, 100.0, 80.0]);
    layout.rows = explicit_rows(vec![20.0, 30.0, 40.0]);

    assert_eq!(freeze_target_column(&layout, -1.0), 0);
    assert_eq!(freeze_target_column(&layout, 24.0), 0);
    assert_eq!(freeze_target_column(&layout, 26.0), 1);
    assert_eq!(freeze_target_column(&layout, 101.0), 2);
    assert_eq!(freeze_target_column(&layout, 999.0), 3);

    assert_eq!(freeze_target_row(&layout, 9.0), 0);
    assert_eq!(freeze_target_row(&layout, 11.0), 1);
    assert_eq!(freeze_target_row(&layout, 36.0), 2);
    assert_eq!(freeze_target_row(&layout, 999.0), 3);
}

#[test]
fn scrollable_row_top_ignores_pinned_rows() {
    let mut layout = layout_with_columns(vec![100.0]);
    layout.rows = explicit_rows(vec![20.0, 30.0, 40.0, 50.0]);
    layout.set_pinned_rows(2);
    let top = |row: usize| {
        (row_start(&layout, row) - rows_height(&layout, 0, layout.pinned_rows)).max(0.0)
    };

    assert_float_eq(top(2), 0.0);
    assert_float_eq(top(3), 40.0);
    assert_float_eq(scrollable_height(&layout), 90.0);
}

#[test]
fn visible_scrollable_row_range_is_constant_for_huge_uniform_sheets() {
    let mut layout = layout_with_columns(vec![100.0]);
    layout.rows = RowLayout::new(
        &SheetRowLayout::Uniform { row_count: 37_000_000, height: px(20.0) },
        Vec::new(),
    );
    layout.set_pinned_rows(1);

    let (start, end) = visible_rows(&layout, 1_000_000.0, 200.0);
    assert!(start >= layout.pinned_rows);
    assert!(
        end - start <= 20 + 2 * ROW_RENDER_OVERSCAN,
        "windowed range too large: {}",
        end - start
    );
    assert!((start..end).contains(&50_001));

    assert_eq!(visible_rows(&layout, 0.0, 0.0), (layout.pinned_rows, layout.pinned_rows));
}

#[test]
fn scrollbar_visibility_uses_only_scrollable_panes() {
    let mut layout = layout_with_columns(vec![60.0, 60.0, 60.0]);
    layout.rows = explicit_rows(vec![30.0, 30.0, 30.0]);
    layout.set_pinned_columns(1);
    layout.set_pinned_rows(1);

    let visibility = scrollbar_visibility_for_window_size(
        &layout,
        FORMULA_BAR_HEIGHT,
        MIN_ROW_HEADER_WIDTH + 130.0,
        fixed_view_height() + 70.0,
    );

    assert!(visibility.horizontal);
    assert!(visibility.vertical);
}

#[test]
fn uniform_row_layout_maps_scroll_positions_without_offsets() {
    let mut layout = layout(
        vec![100.0],
        RowLayout::new(
            &SheetRowLayout::Uniform { row_count: 1_000_000, height: px(24.0) },
            Vec::new(),
        ),
    );

    assert_float_eq(length(layout.row_height(999_999)), 24.0);
    assert_float_eq(sheet_height(&layout), 24_000_000.0);
    assert_eq!(row_at(&layout, 48.5), 2);
    assert_float_eq(48.5 - row_start(&layout, 2), 0.5);
    assert_float_eq(row_start(&layout, 3) + 4.0, 76.0);

    layout.rows.set_row_heights(
        &vec![(0, px(30.0)), (1, px(30.0)), (2, px(30.0))],
        true,
    );

    assert_float_eq(length(layout.row_height(0)), 30.0);
    assert_float_eq(length(layout.row_height(3)), 24.0);
}

#[test]
fn rows_resized_alike_stay_uniform() {
    let mut rows =
        RowLayout::new(&SheetRowLayout::Uniform { row_count: 2, height: px(24.0) }, Vec::new());
    assert!(!rows.set_row_heights(&Vec::new(), true));
    assert!(!rows.set_row_heights(&vec![(0, px(1.0)), (1, px(1.0))], true));
    assert!(matches!(rows, RowLayout::Uniform { .. }));
    assert_float_eq(length(rows.row_height(1)), MIN_ROW_HEIGHT);
    assert_float_eq(length(rows.row_height(2)), MIN_ROW_HEIGHT);
    assert_eq!(rows.row_at(px(-5.0), 0), 0);
    assert_eq!(rows.row_at(px(500.0), 27), 1);
}

#[test]
fn row_header_width_grows_for_large_row_counts() {
    assert_float_eq(row_header_width(0), MIN_ROW_HEADER_WIDTH);
    assert_float_eq(row_header_width(999), MIN_ROW_HEADER_WIDTH);
    assert!(row_header_width(9_999) > MIN_ROW_HEADER_WIDTH);
    assert!(row_header_width(1_000_000) > row_header_width(100_000));
}

#[test]
fn scrollbar_visibility_hides_bars_when_sheet_fits() {
    let layout = test_layout(100.0, 80.0);
    let visibility = scrollbar_visibility_for_window_size(
        &layout,
        FORMULA_BAR_HEIGHT,
        MIN_ROW_HEADER_WIDTH + 120.0,
        fixed_view_height() + 100.0,
    );

    assert!(!visibility.horizontal);
    assert!(!visibility.vertical);
}

#[test]
fn vertical_scrollbar_can_require_horizontal_scrollbar() {
    let layout = test_layout(105.0, 200.0);
    let visibility = scrollbar_visibility_for_window_size(
        &layout,
        FORMULA_BAR_HEIGHT,
        MIN_ROW_HEADER_WIDTH + 110.0,
        fixed_view_height() + 100.0,
    );

    assert!(visibility.vertical);
    assert!(visibility.horizontal);
}

#[test]
fn horizontal_scrollbar_can_require_vertical_scrollbar() {
    let layout = test_layout(200.0, 95.0);
    let visibility = scrollbar_visibility_for_window_size(
        &layout,
        FORMULA_BAR_HEIGHT,
        MIN_ROW_HEADER_WIDTH + 100.0,
        fixed_view_height() + 100.0,
    );

    assert!(visibility.horizontal);
    assert!(visibility.vertical);
}

#[test]
fn text_overflow_extends_across_empty_cells_until_next_value() {
    let layout = layout_with_columns(vec![50.0, 60.0, 70.0, 80.0]);
    let cells = vec![
        text_row_cell("Long account name"),
        empty_row_cell(),
        text_row_cell("Next value"),
        empty_row_cell(),
    ];

    let widths = overflow_text_widths(&cells, &layout);

    assert_float_eq(widths[0].expect("first text cell should overflow"), 110.0);
    assert!(widths[1].is_none());
    assert_float_eq(widths[2].expect("third text cell should overflow"), 150.0);
    assert!(widths[3].is_none());
}

#[test]
fn text_overflow_stays_clipped_when_right_cell_has_value() {
    let layout = layout_with_columns(vec![50.0, 60.0]);
    let cells = vec![text_row_cell("Long account name"), text_row_cell("Value")];

    let widths = overflow_text_widths(&cells, &layout);

    assert!(widths.iter().all(Option::is_none));
}

#[test]
fn fitting_text_does_not_mask_empty_cell_grid_lines() {
    let layout = layout_with_columns(vec![120.0, 60.0]);
    let cells = vec![text_row_cell("Short"), empty_row_cell()];

    let widths = overflow_text_widths(&cells, &layout);

    assert!(widths.iter().all(Option::is_none));
}

#[test]
fn multiline_text_overflow_uses_widest_line() {
    let layout = layout_with_columns(vec![50.0, 60.0]);
    let cells = vec![text_row_cell("short\nMuch longer line"), empty_row_cell()];

    let widths = overflow_text_widths(&cells, &layout);

    assert_float_eq(widths[0].expect("multiline text should overflow"), 110.0);
    assert!(widths[1].is_none());
}

#[test]
fn non_text_cells_do_not_overflow_into_empty_cells() {
    let layout = layout_with_columns(vec![50.0, 60.0]);
    let number = CellRawValue::Number { bits: 1_234_567_890.0f64.to_bits() };
    let cells = vec![row_cell("1234567890", number, 100.0), empty_row_cell()];

    let widths = overflow_text_widths(&cells, &layout);

    assert!(widths.iter().all(Option::is_none));
}

#[test]
fn text_does_not_overflow_into_a_merged_cell() {
    let layout = layout_with_columns(vec![50.0, 60.0, 60.0]);
    let cells = vec![
        text_row_cell("a long piece of text that wants room"),
        merged_row_cell(MergeKind::Covered),
        empty_row_cell(),
    ];

    let widths = overflow_text_widths(&cells, &layout);

    assert!(widths[0].is_none());
}

#[test]
fn a_merge_anchor_does_not_text_overflow() {
    let layout = layout_with_columns(vec![50.0, 60.0]);
    let mut anchor = text_row_cell("a long piece of text that wants room");
    anchor.merge = MergeKind::Anchor;
    let cells = vec![anchor, empty_row_cell()];

    let widths = overflow_text_widths(&cells, &layout);

    assert!(widths[0].is_none());
}

#[test]
fn selection_tint_blends_over_the_real_background() {
    let white = selection_tint(CELL_BG);
    let amber = selection_tint(0xff_e9_b0);
    assert_ne!(white, CELL_BG);
    assert_ne!(white, amber);
    assert!(white & 0xff > (white >> 16) & 0xff);
    assert!(white < CELL_BG);
    assert_eq!(white, 0xe1_ec_fc);
    assert_eq!(selection_tint(0), 0x03_0e_1d);
}

#[test]
fn lazy_sheets_update_less_often_during_scrollbar_drag() {
    assert_eq!(vertical_scroll_drag_update_interval(true), 50);
    assert_eq!(vertical_scroll_drag_update_interval(false), 200);
}

#[test]
fn columns_in_view_are_in_the_window() {
    let mut layout = layout_with_columns(vec![50.0; 30]);
    layout.set_pinned_columns(3);
    for step in 0..28 {
        let scroll = step as f32 * 50.0 + 10.0;
        let (start, end) = visible_columns(&layout, scroll, 120.0);
        assert!(3 <= start && start <= end && end <= 30);
        let first = 3 + step;
        if first < 30 {
            assert!(start <= first && first < end);
        }
    }
}

#[test]
fn regions_are_painted_where_they_begin() {
    let mut layout = layout_with_columns(vec![50.0; 10]);
    layout.merges = SheetMerges::from_ranges(vec![
        CellRange::new(CellCoord::new(2, 0), CellCoord::new(3, 1)),
        CellRange::new(CellCoord::new(2, 5), CellCoord::new(2, 6)),
        CellRange::new(CellCoord::new(4, 5), CellCoord::new(4, 6)),
    ]);
    layout.set_pinned_columns(1);
    assert_eq!(layout.regions_to_paint(2, 3, 6).len(), 2);
    assert_eq!(layout.regions_to_paint(2, 6, 9).len(), 1);
    assert_eq!(layout.regions_to_paint(3, 0, 9).len(), 0);
    assert_eq!(layout.regions_to_paint(4, 5, 6)[0].start, CellCoord::new(4, 5));
}

#[test]
fn lengths_compare_as_floats_do() {
    let lengths = [f32::NEG_INFINITY, -3.5, -0.0, 0.0, 1e-40, 2.0, f32::INFINITY, f32::NAN];
    for left in lengths {
        for right in lengths {
            assert_eq!(px(left).is_less(px(right)), left < right);
            assert_eq!(px(left).is_at_most(px(right)), left <= right);
        }
        assert_eq!(px(left).is_positive(), left > 0.0);
    }
    assert_float_eq(length(px(2.0).max(px(3.0))), 3.0);
    assert_float_eq(length(px(f32::NAN).max(px(3.0))), 3.0);
    assert_float_eq(length(px(3.0).max(px(f32::NAN))), 3.0);
    let offsets = vec![px(0.0), px(10.0), px(20.0)];
    assert_eq!(partition_point(&offsets, px(10.0)), 2);
    assert_eq!(partition_point(&offsets, px(-1.0)), 0);
    assert_eq!(partition_point(&offsets, px(99.0)), 3);
}
