//! Sheets and workbooks: what they hold, copy and list.

use spread::attributes::parse_argb_color;
use spread::cell::{CellBorders, CellData, CellRawValue, CellStyle};
use spread::escape::{append_clipboard_cell, append_html_text, append_xml_text, xml_text};
use spread::export::{color_hex, css_color};
use spread::lines::{estimated_cell_line_count, line_count, wrapped_line_count};
use spread::merges::SheetFreeze;
use spread::pixels::Pixels;
use spread::range::{CellCoord, CellRange};
use spread::sheet::{effective_widths, row_line_counts, widest_row, SheetData, SheetRowLayout};
use spread::workbook::WorkbookData;

const DEFAULT_COLUMN_WIDTH: f32 = 120.0;
const DEFAULT_ROW_HEIGHT: f32 = 24.0;

fn px(length: f32) -> Pixels {
    Pixels { bits: length.to_bits() }
}

fn length(pixels: Pixels) -> f32 {
    f32::from_bits(pixels.bits)
}

fn number(value: f64) -> CellRawValue {
    CellRawValue::Number { bits: value.to_bits() }
}

fn sheet(
    name: &str,
    rows: Vec<Vec<CellData>>,
    column_widths: Vec<f32>,
    row_heights: Vec<f32>,
) -> SheetData {
    let widths: Vec<Pixels> = column_widths.into_iter().map(px).collect();
    let heights: Vec<Pixels> = row_heights.into_iter().map(px).collect();
    let columns = effective_widths(&widths, px(DEFAULT_COLUMN_WIDTH), widest_row(&rows));
    let capacities: Vec<usize> = columns
        .iter()
        .map(|width| ((length(*width) - 8.0).max(7.0) / 7.0) as usize)
        .collect();
    let automatic: Vec<Pixels> = row_line_counts(&rows, &capacities)
        .into_iter()
        .map(|lines| px(DEFAULT_ROW_HEIGHT + (lines - 1) as f32 * (DEFAULT_ROW_HEIGHT - 4.0)))
        .collect();
    SheetData::new(
        Some(name.to_owned()),
        rows,
        widths,
        &heights,
        px(DEFAULT_COLUMN_WIDTH),
        px(DEFAULT_ROW_HEIGHT),
        &automatic,
    )
}

fn near_default(sheet: &SheetData) -> Vec<bool> {
    sheet
        .row_heights
        .iter()
        .map(|height| (length(*height) - DEFAULT_ROW_HEIGHT).abs() < f32::EPSILON)
        .collect()
}

fn cell(value: &str, raw_value: CellRawValue) -> CellData {
    CellData { value: value.to_owned(), raw_value, ..Default::default() }
}

#[test]
fn multiline_cells_expand_auto_row_height_without_overriding_explicit_height() {
    let rows = || vec![vec![cell("line 1\nline 2\nline 3", CellRawValue::Empty)]];
    let auto_sheet = sheet("Sheet1", rows(), Vec::new(), Vec::new());

    assert!(length(auto_sheet.row_height(0)) > DEFAULT_ROW_HEIGHT);
    assert!(matches!(
        auto_sheet.row_layout(&near_default(&auto_sheet)),
        SheetRowLayout::Explicit { heights } if length(heights[0]) > DEFAULT_ROW_HEIGHT
    ));

    let fixed_sheet = sheet("Sheet1", rows(), Vec::new(), vec![30.0]);

    assert!((length(fixed_sheet.row_height(0)) - 30.0).abs() < 0.01);
}

#[test]
fn selection_summary_counts_cells_and_numeric_values() {
    let sheet = sheet(
        "Sheet1",
        vec![
            vec![cell("1", number(1.0)), cell("text", CellRawValue::Text)],
            vec![cell("3", number(3.0)), cell("2026-01-01", CellRawValue::DateTime)],
        ],
        Vec::new(),
        Vec::new(),
    );

    let summary =
        sheet.summary_for_range(CellRange::new(CellCoord::new(0, 0), CellCoord::new(1, 1)));
    let numbers: Vec<f64> = summary.numbers.iter().map(|bits| f64::from_bits(*bits)).collect();

    assert_eq!(summary.selected_cells, 4);
    assert_eq!(numbers.len(), 2);
    assert!((numbers.iter().sum::<f64>() - 4.0).abs() < f64::EPSILON);
    assert_eq!(numbers.iter().copied().reduce(f64::min), Some(1.0));
    assert_eq!(numbers.iter().copied().reduce(f64::max), Some(3.0));
}

#[test]
fn range_to_tsv_uses_display_values_and_grid_separators() {
    let sheet = sheet(
        "Sheet1",
        vec![
            vec![cell("2026-01-01", CellRawValue::DateTime), cell("$1,234.50", number(1234.5))],
            vec![cell("line\nbreak", CellRawValue::Text), cell("15.2%", number(0.152))],
        ],
        Vec::new(),
        Vec::new(),
    );

    let copied = sheet.range_to_tsv(CellRange::new(CellCoord::new(1, 1), CellCoord::new(0, 0)));

    assert_eq!(copied, "2026-01-01\t$1,234.50\nline break\t15.2%");
}

#[test]
fn copied_text_keeps_the_cells_apart() {
    let sheet = sheet(
        "Sheet1",
        vec![
            vec![cell("a\tb", CellRawValue::Text), cell("c\r\nd", CellRawValue::Text)],
            vec![cell("", CellRawValue::Empty)],
        ],
        Vec::new(),
        Vec::new(),
    );
    let copied = sheet.range_to_tsv(CellRange::new(CellCoord::new(0, 0), CellCoord::new(1, 1)));
    let grid: Vec<Vec<&str>> = copied.split('\n').map(|row| row.split('\t').collect()).collect();
    assert_eq!(grid.len(), 2);
    assert_eq!(grid[0].len(), 2);
    assert_eq!(grid[1], vec!["", ""]);
    let mut text = String::new();
    append_clipboard_cell(&mut text, "x\ty\rz\n");
    assert!(!text.contains('\t') && !text.contains('\n') && !text.contains('\r'));
}

#[test]
fn range_to_html_includes_display_values_and_cell_styles() {
    let styled = CellData {
        value: "Ada & <Grace>".to_owned(),
        style: CellStyle {
            bold: true,
            background_color: Some(0xaa_bb_cc),
            text_color: Some(0x11_22_33),
            wrap_text: false,
            borders: CellBorders::default(),
        },
        ..Default::default()
    };
    let sheet = sheet("Sheet1", vec![vec![styled]], vec![80.0], vec![28.0]);
    let width = format!("{:.2}", length(sheet.column_width(0)));
    let height = format!("{:.2}", length(sheet.row_height(0)));

    let copied = sheet.range_to_html(
        CellRange::single(CellCoord::new(0, 0)),
        &vec![width],
        &vec![height],
    );

    assert!(copied.contains("<table"));
    assert!(copied.contains("Ada &amp; &lt;Grace&gt;"));
    assert!(copied.contains("color:#112233;"));
    assert!(copied.contains("background-color:#aabbcc;"));
    assert!(copied.contains("font-weight:bold;"));
    assert!(copied.contains("width:80.00px;"));
    assert!(copied.contains("height:28.00px;"));
}

#[test]
fn html_escapes_quotes() {
    let mut text = String::new();
    append_html_text(&mut text, "a\"b'c\nd");
    assert_eq!(text, "a&quot;b&#39;c\nd");
    assert_eq!(color_hex(0x00_00_0f), "00000f");
    assert_eq!(css_color(0xff_00_00), "ff0000");
}

#[test]
fn written_colors_read_back() {
    for color in [0, 0x0f, 0x00_ab_cd, 0xff_ff_ff] {
        let digits = color_hex(color);
        assert_eq!(parse_argb_color(&digits), Some(color));
        for alpha in ["FF", "00", "zz", "# "] {
            assert_eq!(parse_argb_color(&format!("{alpha}{digits}")), Some(color));
        }
    }
}

#[test]
fn escaped_texts_join() {
    let (first, second) = ("a<b & \"c\"", "amp; 'd'>");
    let mut text = String::new();
    append_xml_text(&mut text, first);
    append_xml_text(&mut text, second);
    assert_eq!(text, "a&lt;b &amp; \"c\"amp; 'd'&gt;");
    assert_eq!(text, xml_text(&format!("{first}{second}")));
    for (index, _) in text.match_indices('&') {
        let rest = &text[index..];
        assert!(["&amp;", "&lt;", "&gt;"].iter().any(|entity| rest.starts_with(entity)));
    }
}

#[test]
fn sheet_to_pretty_xml_escapes_values_and_formulas() {
    let formula = CellData {
        value: "2".to_owned(),
        formula: Some("='Enterprise Revenue'!T45 < 2".to_owned()),
        raw_value: number(2.0),
        ..Default::default()
    };
    let sheet = sheet(
        "Sheet & 1",
        vec![vec![cell("Ada & <Grace>", CellRawValue::Empty), formula]],
        Vec::new(),
        Vec::new(),
    );

    assert_eq!(
        sheet.to_pretty_xml(),
        "<sheet name=\"Sheet &amp; 1\">\n  <row_1>\n    <a>Ada &amp; &lt;Grace&gt;</a>\n    <b formula=\"'Enterprise Revenue'!T45 &lt; 2\">2</b>\n  </row_1>\n</sheet>"
    );
}

#[test]
fn listings_say_everything_of_a_cell() {
    let mut bold = cell("x", CellRawValue::Text);
    bold.style.bold = true;
    bold.style.background_color = Some(0x01_02_03);
    let sheet = sheet("S", vec![vec![bold], vec![]], vec![50.0], Vec::new());
    let listing = sheet.inspect();
    assert_eq!(listing.sheet, "S");
    assert_eq!((listing.rows, listing.cols), (2, 1));
    assert_eq!(listing.cells.len(), 2);
    assert_eq!(listing.cells[0].x, "A");
    assert_eq!(listing.cells[0].y, 1);
    assert_eq!(listing.cells[0].display_value, "x");
    assert_eq!(listing.cells[0].fg, "202124");
    assert_eq!(listing.cells[0].bg, "010203");
    assert!(listing.cells[0].bold);
    assert!((length(listing.cells[0].width) - 50.0).abs() < f32::EPSILON);
    assert_eq!(listing.cells[1].display_value, "");
    assert_eq!(listing.cells[1].bg, "ffffff");
}

#[test]
fn workbook_finds_sheets_by_name_or_one_based_index() {
    let workbook = WorkbookData::new(
        Some("book.xlsx".to_owned()),
        vec![
            sheet("Summary", Vec::new(), Vec::new(), Vec::new()),
            sheet("Details", Vec::new(), Vec::new(), Vec::new()),
        ],
    );

    assert_eq!(workbook.sheet_index("Details"), Some(1));
    assert_eq!(workbook.sheet_index("2"), Some(1));
    assert_eq!(workbook.sheet_index("0"), None);
    assert_eq!(workbook.sheet_index("Missing"), None);
}

#[test]
fn workbooks_name_their_sheets() {
    let workbook = WorkbookData::new(
        Some("book.xlsx".to_owned()),
        vec![
            sheet("2", Vec::new(), Vec::new(), Vec::new()),
            sheet("Details", Vec::new(), Vec::new(), Vec::new()),
        ],
    );
    assert_eq!(workbook.sheet_count(), 2);
    assert_eq!(workbook.sheet_index("2"), Some(0));
    assert_eq!(workbook.sheet_name(1), "Details");
    assert_eq!(workbook.sheet_name(9), "2");
    assert_eq!(workbook.sheet_names(), vec!["2", "Details"]);
    assert_eq!(workbook.sheet_list(), vec!["1\t2", "2\tDetails"]);
    assert_eq!(workbook.display_name(), "book.xlsx");
    assert_eq!(workbook.resolve_sheet(None), Ok(0));
    assert_eq!(workbook.resolve_sheet(Some("Details")), Ok(1));
    assert_eq!(
        workbook.resolve_sheet(Some("Nope")),
        Err("sheet 'Nope' not found; available sheets: 2, Details".to_owned())
    );
    assert_eq!(WorkbookData::placeholder().sheet_count(), 1);
}

#[test]
fn lines_are_counted() {
    assert_eq!(wrapped_line_count(0, 5), 1);
    assert_eq!(wrapped_line_count(5, 5), 1);
    assert_eq!(wrapped_line_count(6, 5), 2);
    let mut wrapped = cell("abcdef\ng", CellRawValue::Text);
    assert_eq!(estimated_cell_line_count(&wrapped, 3), 2);
    wrapped.style.wrap_text = true;
    assert_eq!(estimated_cell_line_count(&wrapped, 3), 3);
    assert_eq!(estimated_cell_line_count(&cell("abcdef", CellRawValue::Text), 3), 1);
    assert_eq!(line_count(""), 1);
    assert_eq!(line_count("a\nb\n"), 3);
}

#[test]
fn sheets_answer_outside_of_their_cells() {
    let sheet = sheet(
        "S",
        vec![vec![cell("1", number(1.0))], vec![cell("t", CellRawValue::Text), cell("u", CellRawValue::Text)]],
        vec![0.0, 33.0],
        Vec::new(),
    );
    assert_eq!((sheet.row_count(), sheet.col_count()), (2, 2));
    assert_eq!(sheet.cell(0, 1), "");
    assert_eq!(sheet.cell(5, 5), "");
    assert_eq!(sheet.numeric_value(0, 0), Some(1.0f64.to_bits()));
    assert_eq!(sheet.numeric_value(1, 0), None);
    assert!((length(sheet.column_width(0)) - DEFAULT_COLUMN_WIDTH).abs() < f32::EPSILON);
    assert!((length(sheet.column_width(1)) - 33.0).abs() < f32::EPSILON);
    assert!((length(sheet.row_height(99)) - DEFAULT_ROW_HEIGHT).abs() < f32::EPSILON);
    assert!(sheet.is_fully_loaded() && sheet.supports_full_range_operations());
    assert!(!sheet.has_missing_formula_values());
    assert_eq!(sheet.freeze(), SheetFreeze { rows: 0, columns: 0 });
    let sheet = sheet.with_freeze(SheetFreeze { rows: 1, columns: 2 });
    assert_eq!(sheet.freeze(), SheetFreeze { rows: 1, columns: 2 });
    assert_eq!(sheet.cell(1, 1), "u");
}
