//! XLSX packages, from their bytes to cells.

use std::io::{Cursor, Write};

use spread::attributes::parse_argb_color;
use spread::cell::{CellBorders, CellRawValue};
use spread::display::{
    display_cell, display_excel_datetime, make_cells, number_requests, NumberRequest, SheetNumber,
    WrittenNumber,
};
use spread::errors::XlsxError;
use spread::formats::{
    format_currency, format_decimals, format_percentage, is_dollar_format, is_percentage_format,
    CellDisplayFormat, NumberLayout, NumberText,
};
use spread::grid::{read_contents, SheetContent, SheetValue};
use spread::metadata::read_sheet_metadata;
use spread::package::{
    normalize_workbook_target, relationships_by_id, resolve_paths, workbook_sheet_relationships,
    XlsxMetadata,
};
use spread::range::{CellCoord, CellRange};
use spread::styles::{border_side, builtin_number_formats, read_styles, set_border_side, BorderSide};
use zip::write::SimpleFileOptions;
use zip::ZipWriter;

const WORKBOOK_XML: &str = r#"<workbook xmlns="http://schemas.openxmlformats.org/spreadsheetml/2006/main" xmlns:r="http://schemas.openxmlformats.org/officeDocument/2006/relationships"><sheets><sheet name="Sheet1" sheetId="1" r:id="rId1"/></sheets></workbook>"#;

const RELS_XML: &str = r#"<Relationships xmlns="http://schemas.openxmlformats.org/package/2006/relationships"><Relationship Id="rId1" Type="http://schemas.openxmlformats.org/officeDocument/2006/relationships/worksheet" Target="worksheets/sheet1.xml"/></Relationships>"#;

const PACKAGE_RELS_XML: &str = r#"<Relationships xmlns="http://schemas.openxmlformats.org/package/2006/relationships"><Relationship Id="rId1" Type="http://schemas.openxmlformats.org/officeDocument/2006/relationships/officeDocument" Target="xl/workbook.xml"/></Relationships>"#;

const STYLES_XML: &str = r#"<?xml version="1.0" encoding="UTF-8"?>
<styleSheet xmlns="http://schemas.openxmlformats.org/spreadsheetml/2006/main">
  <numFmts count="1"><numFmt numFmtId="164" formatCode="&quot;$&quot;#,##0.00"/></numFmts>
  <fonts count="2">
    <font></font>
    <font><b/><color rgb="FF112233"/></font>
  </fonts>
  <fills count="3">
    <fill><patternFill patternType="none"/></fill>
    <fill><patternFill patternType="gray125"/></fill>
    <fill><patternFill patternType="solid"><fgColor rgb="FFAABBCC"/></patternFill></fill>
  </fills>
  <borders count="2">
    <border/>
    <border><left style="thin"><color rgb="FF010203"/></left><top style="thin"/></border>
  </borders>
  <cellXfs count="4">
    <xf fontId="0" fillId="0" numFmtId="0"/>
    <xf fontId="1" fillId="2" numFmtId="0"><alignment wrapText="1"/></xf>
    <xf fontId="0" fillId="0" borderId="1" numFmtId="164"/>
    <xf fontId="0" fillId="0" numFmtId="9"/>
  </cellXfs>
</styleSheet>"#;

const SHEET_XML: &str = r#"<?xml version="1.0" encoding="UTF-8"?>
<worksheet xmlns="http://schemas.openxmlformats.org/spreadsheetml/2006/main">
  <sheetViews><sheetView><pane xSplit="1" ySplit="2" state="frozen"/></sheetView></sheetViews>
  <sheetFormatPr defaultColWidth="9" defaultRowHeight="18"/>
  <cols><col min="2" max="3" width="20"/></cols>
  <sheetData>
    <row r="1"><c r="A1" t="str"><v>text</v></c><c r="B1" s="2"><v>1234.5</v></c><c r="C1" s="3"><v>0.25</v></c></row>
    <row r="2"><c r="A2" t="b"><v>1</v></c><c r="B2"><f>B1*2</f></c><c r="C2"><f>B1+1</f><v>1235.5</v></c></row>
    <row r="4" ht="30"><c r="A4" s="1"/></row>
  </sheetData>
  <mergeCells count="1"><mergeCell ref="A3:B4"/></mergeCells>
</worksheet>"#;

fn package(parts: &[(&str, &str)]) -> Vec<u8> {
    let mut zip = ZipWriter::new(Cursor::new(Vec::new()));
    for (name, contents) in parts {
        zip.start_file(*name, SimpleFileOptions::default()).unwrap();
        zip.write_all(contents.as_bytes()).unwrap();
    }
    zip.finish().unwrap().into_inner()
}

fn book() -> Vec<u8> {
    book_with(STYLES_XML, SHEET_XML, &[])
}

fn book_with(styles: &str, sheet: &str, parts: &[(&str, &str)]) -> Vec<u8> {
    let mut all = vec![
        ("_rels/.rels", PACKAGE_RELS_XML),
        ("xl/workbook.xml", WORKBOOK_XML),
        ("xl/_rels/workbook.xml.rels", RELS_XML),
        ("xl/styles.xml", styles),
        ("xl/worksheets/sheet1.xml", sheet),
    ];
    all.extend_from_slice(parts);
    package(&all)
}

fn sheet_with(before: &str, data: &str) -> Vec<u8> {
    let sheet = format!("<worksheet>{before}<sheetData>{data}</sheetData></worksheet>");
    book_with(STYLES_XML, &sheet, &[])
}

fn is_out_of_bounds(bytes: Vec<u8>) -> bool {
    matches!(read_contents(bytes), Err(XlsxError::OutOfBounds))
}

fn written(request: &Option<NumberRequest>) -> WrittenNumber {
    let Some(request) = request else {
        return WrittenNumber {
            bits: 0,
            text: NumberText { negative: false, digits: String::new() },
        };
    };
    let number = match request.number {
        SheetNumber::Int(number) => number as f64,
        SheetNumber::Float(bits) => f64::from_bits(bits),
    };
    let digits = match request.layout {
        NumberLayout::Plain => number.to_string(),
        NumberLayout::Fixed { decimals } => format!("{:.decimals$}", number.abs()),
        NumberLayout::Percent { decimals } => format!("{:.decimals$}", number * 100.0),
    };
    WrittenNumber { bits: number.to_bits(), text: NumberText { negative: number.is_sign_negative(), digits } }
}

fn number_text(format: &CellDisplayFormat, number: f64) -> NumberText {
    written(&Some(NumberRequest {
        number: SheetNumber::Float(number.to_bits()),
        layout: format.layout(),
    }))
    .text
}

#[test]
fn reads_xlsx_visual_styles_and_dimensions_from_metadata() {
    let styles_xml = r#"<?xml version="1.0" encoding="UTF-8"?>
<styleSheet xmlns="http://schemas.openxmlformats.org/spreadsheetml/2006/main">
  <fonts count="2">
    <font></font>
    <font><b/><color rgb="FF112233"/></font>
  </fonts>
  <fills count="3">
    <fill><patternFill patternType="none"/></fill>
    <fill><patternFill patternType="gray125"/></fill>
    <fill><patternFill patternType="solid"><fgColor rgb="FFAABBCC"/></patternFill></fill>
  </fills>
  <cellXfs count="2">
    <xf fontId="0" fillId="0" numFmtId="0"/>
    <xf fontId="1" fillId="2" numFmtId="0"><alignment wrapText="1"/></xf>
  </cellXfs>
</styleSheet>"#;
    let sheet_xml = r#"<?xml version="1.0" encoding="UTF-8"?>
<worksheet xmlns="http://schemas.openxmlformats.org/spreadsheetml/2006/main">
  <sheetFormatPr defaultColWidth="9" defaultRowHeight="18"/>
  <cols><col min="2" max="3" width="20"/></cols>
  <sheetData>
    <row r="4" ht="30"><c r="A4" s="1"/></row>
  </sheetData>
</worksheet>"#;
    let bytes = package(&[
        ("xl/workbook.xml", r#"<workbook xmlns:r="http://schemas.openxmlformats.org/officeDocument/2006/relationships"><sheets><sheet name="Sheet1" sheetId="1" r:id="rId1"/></sheets></workbook>"#),
        ("xl/_rels/workbook.xml.rels", r#"<Relationships><Relationship Id="rId1" Target="worksheets/sheet1.xml"/></Relationships>"#),
        ("xl/styles.xml", styles_xml),
        ("xl/worksheets/sheet1.xml", sheet_xml),
    ]);

    let metadata = XlsxMetadata::read(bytes).unwrap();
    let sheet_metadata = metadata.sheet_metadata("Sheet1");
    let style = sheet_metadata.cell_style(3, 0).visual_style;

    assert!(style.bold);
    assert_eq!(style.text_color, Some(0x11_22_33));
    assert_eq!(style.background_color, Some(0xaa_bb_cc));
    assert!(style.wrap_text);
    assert_eq!(sheet_metadata.default_column_width.as_deref(), Some("9"));
    assert_eq!(sheet_metadata.column_widths[1].as_deref(), Some("20"));
    assert_eq!(sheet_metadata.column_widths[2].as_deref(), Some("20"));
    assert_eq!(sheet_metadata.default_row_height.as_deref(), Some("18"));
    assert_eq!(sheet_metadata.row_heights[3].as_deref(), Some("30"));
}

#[test]
fn reads_panes_merges_borders_and_formats() {
    let metadata = XlsxMetadata::read(book()).unwrap();
    let sheet_metadata = metadata.sheet_metadata("Sheet1");
    let pane = sheet_metadata.pane.as_ref().unwrap();
    assert_eq!(pane.columns.as_deref(), Some("1"));
    assert_eq!(pane.rows.as_deref(), Some("2"));
    assert_eq!(
        sheet_metadata.merges,
        vec![CellRange::new(CellCoord::new(2, 0), CellCoord::new(3, 1))]
    );
    let style = sheet_metadata.cell_style(0, 1);
    assert_eq!(style.display_format, Some(CellDisplayFormat::Currency { decimals: 2 }));
    assert_eq!(style.visual_style.borders.left, Some(0x01_02_03));
    assert_eq!(
        sheet_metadata.cell_style(0, 2).display_format,
        Some(CellDisplayFormat::Percentage { decimals: 0 })
    );
    assert_eq!(sheet_metadata.cell_style(50, 50).display_format, None);
    let unknown = metadata.sheet_metadata("Unknown");
    assert!(unknown.column_widths.is_empty() && unknown.pane.is_none());
}

#[test]
fn sides_without_a_color_are_black() {
    let borders = |border: &str| {
        let styles = format!(
            "<styleSheet><borders><border>{border}</border></borders>\
             <cellXfs><xf borderId=\"0\"/></cellXfs></styleSheet>"
        );
        read_styles(&styles).unwrap()[0].visual_style.borders
    };
    let diagonal = r#"<diagonal><color rgb="FF0000"/></diagonal>"#;
    let thin = borders(&format!(r#"<bottom style="thin"/>{diagonal}"#));
    assert_eq!(thin.bottom, Some(0));
    let open = borders(&format!(r#"<bottom style="thin"></bottom>{diagonal}"#));
    assert_eq!(open.bottom, Some(0));
    let late = r#"<bottom style="thin"><ext><x/></ext><color rgb="FF0000FF"/></bottom>"#;
    assert_eq!(borders(late).bottom, Some(0xff));
    let colored = borders(r#"<left style="thin"/><top style="thin"><color rgb="FF0000FF"/></top>"#);
    assert_eq!((colored.left, colored.top), (Some(0), Some(0xff)));
    let none = borders(r#"<top style="none"><color rgb="FF0000FF"/></top><right/>"#);
    assert_eq!((none.top, none.right), (None, None));
}

#[test]
fn cells_hold_what_the_package_says() {
    let metadata = XlsxMetadata::read(book()).unwrap();
    let sheet_metadata = metadata.sheet_metadata("Sheet1");
    let contents = read_contents(book()).unwrap();
    assert_eq!(contents.len(), 1);
    assert_eq!(contents[0].name, "Sheet1");
    let requests = number_requests(&contents[0].values, sheet_metadata);
    let numbers: Vec<Vec<WrittenNumber>> =
        requests.iter().map(|row| row.iter().map(written).collect()).collect();
    let rows = make_cells(&contents[0], sheet_metadata, &numbers);

    assert_eq!(rows[0][0].value, "text");
    assert_eq!(rows[0][0].raw_value, CellRawValue::Text);
    assert_eq!(rows[0][1].value, "$1,234.50");
    assert_eq!(rows[0][1].raw_value, CellRawValue::Number { bits: 1234.5f64.to_bits() });
    assert_eq!(rows[0][2].value, "25%");
    assert_eq!(rows[1][0].value, "true");
    assert_eq!(rows[1][0].raw_value, CellRawValue::Bool(true));
    assert_eq!(rows[1][1].formula.as_deref(), Some("B1*2"));
    assert_eq!(rows[1][1].value, "");
    assert!(rows[1][1].formula_value_was_uncached);
    assert_eq!(rows[1][2].formula.as_deref(), Some("B1+1"));
    assert_eq!(rows[1][2].value, "1235.5");
    assert!(!rows[1][2].formula_value_was_uncached);
}

#[test]
fn broken_packages_are_reported() {
    assert!(matches!(XlsxMetadata::read(b"no archive".to_vec()), Err(XlsxError::Archive(_))));
    assert!(matches!(read_contents(b"no archive".to_vec()), Err(XlsxError::Workbook(_))));
    let no_workbook = package(&[("xl/styles.xml", STYLES_XML)]);
    assert!(matches!(
        XlsxMetadata::read(no_workbook),
        Err(XlsxError::MissingPart(path)) if path == "xl/workbook.xml"
    ));
    let no_relationship = package(&[
        ("xl/workbook.xml", WORKBOOK_XML),
        ("xl/_rels/workbook.xml.rels", "<Relationships/>"),
        ("xl/styles.xml", STYLES_XML),
    ]);
    let error = XlsxMetadata::read(no_relationship).err().unwrap();
    assert!(matches!(&error, XlsxError::MissingRelationship(id) if id == "rId1"));
    assert_eq!(error.message(), "XLSX workbook is missing sheet relationship rId1");
    let not_text = {
        let mut zip = ZipWriter::new(Cursor::new(Vec::new()));
        zip.start_file("xl/styles.xml", SimpleFileOptions::default()).unwrap();
        zip.write_all(b"\xff\xfe").unwrap();
        zip.finish().unwrap().into_inner()
    };
    assert!(matches!(
        XlsxMetadata::read(not_text),
        Err(XlsxError::UnreadablePart(path, _)) if path == "xl/styles.xml"
    ));
}

#[test]
fn broken_parts_are_reported() {
    assert!(matches!(read_styles("<styleSheet><fonts></fills></styleSheet>"), Err(XlsxError::Xml(_))));
    assert!(matches!(
        read_styles(r#"<styleSheet><cellXfs><xf numFmtId="x"/></cellXfs></styleSheet>"#),
        Err(XlsxError::InvalidNumber(text)) if text == "x"
    ));
    assert!(matches!(
        read_styles("<styleSheet><fonts><font><color rgb=\"aä12345\"/></font></fonts></styleSheet>"),
        Err(XlsxError::InvalidColor(text)) if text == "aä12345"
    ));
    let styles = read_styles(STYLES_XML).unwrap();
    assert_eq!(styles.len(), 4);
    assert!(matches!(
        read_sheet_metadata(
            r#"<worksheet><sheetData><row><c r="ZZZZZZZZZZZZZZZZ1" s="1"/></row></sheetData></worksheet>"#,
            &styles
        ),
        Err(XlsxError::ReferenceOverflow(_))
    ));
    assert!(matches!(
        read_sheet_metadata(
            r#"<worksheet><sheetFormatPr defaultColWidth="wide"/></worksheet>"#,
            &styles
        ),
        Err(XlsxError::InvalidNumber(text)) if text == "wide"
    ));
}

#[test]
fn sheets_are_found_through_relationships() {
    let sheets = workbook_sheet_relationships(WORKBOOK_XML).unwrap();
    assert_eq!(sheets, vec![("Sheet1".to_owned(), "rId1".to_owned())]);
    let relationships = relationships_by_id(RELS_XML).unwrap();
    assert_eq!(relationships, vec![("rId1".to_owned(), "worksheets/sheet1.xml".to_owned())]);
    assert_eq!(
        resolve_paths(&sheets, &relationships).unwrap(),
        vec![("Sheet1".to_owned(), "xl/worksheets/sheet1.xml".to_owned())]
    );
    assert_eq!(normalize_workbook_target("xl/a.xml"), "xl/a.xml");
    assert_eq!(normalize_workbook_target("/xl/a.xml"), "xl/a.xml");
    assert_eq!(normalize_workbook_target("a.xml"), "xl/a.xml");
}

#[test]
fn workbooks_without_sheets_are_refused() {
    let empty = package(&[
        ("_rels/.rels", PACKAGE_RELS_XML),
        (
            "xl/workbook.xml",
            r#"<workbook xmlns="http://schemas.openxmlformats.org/spreadsheetml/2006/main"><sheets></sheets></workbook>"#,
        ),
        ("xl/_rels/workbook.xml.rels", RELS_XML),
        ("xl/styles.xml", STYLES_XML),
    ]);
    assert!(matches!(read_contents(empty), Err(XlsxError::NoSheets)));
}

#[test]
fn unreadable_sheets_are_refused() {
    let missing = package(&[
        ("_rels/.rels", PACKAGE_RELS_XML),
        ("xl/workbook.xml", WORKBOOK_XML),
        ("xl/_rels/workbook.xml.rels", RELS_XML),
        ("xl/styles.xml", STYLES_XML),
    ]);
    assert!(matches!(
        read_contents(missing),
        Err(XlsxError::UnreadableSheet(name, _)) if name == "Sheet1"
    ));
}

#[test]
fn references_out_of_bounds_are_refused() {
    let cell = |reference: &str| sheet_with("", &format!(r#"<row><c r="{reference}"><v>1</v></c></row>"#));
    assert!(!is_out_of_bounds(cell("XFD1048576")));
    assert!(!is_out_of_bounds(cell("A4294967293")));
    assert!(is_out_of_bounds(cell("A4294967295")));
    assert!(is_out_of_bounds(cell("A99999999999")));
    assert!(!is_out_of_bounds(cell("MWLQKWT1")));
    assert!(is_out_of_bounds(cell("MWLQKWU1")));
    assert!(is_out_of_bounds(cell("ABCDEFGH1")));
    assert!(is_out_of_bounds(sheet_with("", r#"<row r="4294967295"/><row r="1"/>"#)));
    assert!(is_out_of_bounds(sheet_with(
        "",
        r#"<row><c r="A1"><v>1</v></c><c r="MWLQKWT4294967293"><v>1</v></c></row>"#
    )));
    assert!(is_out_of_bounds(sheet_with("", r#"<row><c r="A1" r="A99999999999"><v>1</v></c></row>"#)));
}

#[test]
fn ranges_out_of_order_are_refused() {
    let dimension = |range: &str| sheet_with(&format!(r#"<dimension ref="{range}"/>"#), "");
    assert!(!is_out_of_bounds(dimension("A1:B2")));
    assert!(!is_out_of_bounds(dimension("A1048576:XFD1048576")));
    assert!(!is_out_of_bounds(dimension("A1")));
    assert!(!is_out_of_bounds(dimension("C:A")));
    assert!(is_out_of_bounds(dimension("B2:A1")));
    assert!(is_out_of_bounds(dimension("B1:A2")));
    assert!(is_out_of_bounds(dimension("A2:B1")));
    assert!(is_out_of_bounds(dimension("A1:A99999999999")));
}

#[test]
fn announced_counts_out_of_bounds_are_refused() {
    let formula = |index: &str, range: &str| {
        sheet_with(
            "",
            &format!(
                r#"<row r="1"><c r="A1"><f t="shared" ref="{range}" si="{index}">B1*2</f><v>4</v></c></row><row r="2"><c r="A2"><f t="shared" si="{index}"/><v>6</v></c></row>"#
            ),
        )
    };
    let contents = read_contents(formula("3", "A1:A2")).unwrap();
    assert_eq!(contents[0].formulas[0][0].as_deref(), Some("B1*2"));
    assert_eq!(contents[0].formulas[1][0].as_deref(), Some("B2*2"));
    assert!(is_out_of_bounds(formula("3", "A2:A1")));
    assert!(is_out_of_bounds(formula("18446744073709551615", "A1:A2")));
    assert!(is_out_of_bounds(formula("1000000000000000000", "A1:A2")));
    assert!(!is_out_of_bounds(formula("none", "A1:A2")));

    let strings = |count: &str| {
        let strings = format!(r#"<sst uniqueCount="{count}"><si><t>shared</t></si></sst>"#);
        let sheet = r#"<worksheet><sheetData><row r="1"><c r="A1" t="s"><v>0</v></c></row></sheetData></worksheet>"#;
        book_with(STYLES_XML, sheet, &[("xl/sharedStrings.xml", strings.as_str())])
    };
    let contents = read_contents(strings("1")).unwrap();
    assert!(matches!(&contents[0].values[0][0], SheetValue::Text(text) if text == "shared"));
    assert!(is_out_of_bounds(strings("1000000000000000000")));
}

#[test]
fn number_formats_out_of_bounds_are_refused() {
    let formatted = |format: &str, value: &str| {
        let styles = format!(
            r#"<styleSheet><numFmts><numFmt numFmtId="164" formatCode="{format}"/></numFmts><cellXfs><xf numFmtId="164"/></cellXfs></styleSheet>"#
        );
        let sheet = format!(
            r#"<worksheet><sheetData><row r="1"><c r="A1" s="0"><v>{value}</v></c></row></sheetData></worksheet>"#
        );
        book_with(&styles, &sheet, &[])
    };
    assert!(!is_out_of_bounds(formatted(&"[".repeat(255), "1")));
    assert!(is_out_of_bounds(formatted(&"[".repeat(256), "1")));
    assert!(!is_out_of_bounds(formatted(&"[]".repeat(300), "1")));
    assert!(!is_out_of_bounds(formatted(&r"\[".repeat(300), "1")));
    assert!(!is_out_of_bounds(formatted(&format!("&quot;{}&quot;", "[".repeat(300)), "1")));
    assert!(!is_out_of_bounds(formatted(&format!("0;{}", "[".repeat(300)), "1")));
    assert!(is_out_of_bounds(formatted(&"&#91;".repeat(256), "1")));
    let day = |value: &str| match &read_contents(formatted("yyyy-mm-dd", value)).unwrap()[0].values[0][0] {
        SheetValue::DateTime(parts) => (parts.0, parts.1, parts.2),
        other => panic!("{other:?}"),
    };
    assert_eq!(day("45306"), (2024, 1, 15));
    assert_eq!(day("1000000000000000"), (9999, 12, 31));
}

#[test]
fn parts_that_hold_no_cells_may_be_malformed() {
    let drawing = ("xl/drawings/vmlDrawing1.vml", "<xml><br><v:shape></xml>");
    let contents = read_contents(book_with(STYLES_XML, SHEET_XML, &[drawing])).unwrap();
    assert_eq!(contents[0].name, "Sheet1");
}

#[test]
fn parts_that_are_not_read_may_be_out_of_bounds() {
    let far = r#"<worksheet><dimension ref="B2:A1"/><sheetData><row><c r="A99999999999"/></row></sheetData></worksheet>"#;
    let parts = [
        ("xl/worksheets/sheet2.xml", far),
        ("xl/calcChain.xml", r#"<calcChain><c r="A99999999999"/></calcChain>"#),
        ("docProps/sharedStrings.xml", r#"<sst uniqueCount="18446744073709551615"/>"#),
    ];
    let contents = read_contents(book_with(STYLES_XML, SHEET_XML, &parts)).unwrap();
    assert_eq!(contents.len(), 1);
    assert!(matches!(&contents[0].values[0][0], SheetValue::Text(text) if text == "text"));

    let brackets = "[".repeat(300);
    let styles = format!(
        r#"<styleSheet><dxfs><dxf><numFmt numFmtId="164" formatCode="{brackets}"/></dxf></dxfs></styleSheet>"#
    );
    assert!(read_contents(book_with(&styles, SHEET_XML, &[])).is_ok());
}

#[test]
fn attributes_behind_the_wanted_ones_may_be_out_of_bounds() {
    let cell = r#"<c r="A1" s="0" t="n" r="A99999999999" oops><v>7</v></c>"#;
    let dimension = r#"<dimension ref="A1:B2" ref="B2:A1" oops/>"#;
    let contents = read_contents(sheet_with(dimension, &format!("<row>{cell}</row>"))).unwrap();
    assert!(matches!(&contents[0].values[0][0], SheetValue::Float(bits) if *bits == 7f64.to_bits()));

    let strings = r#"<sst uniqueCount="1" uniqueCount="18446744073709551615" oops><si><t>a</t></si></sst>"#;
    assert!(read_contents(book_with(STYLES_XML, SHEET_XML, &[("xl/sharedStrings.xml", strings)])).is_ok());
}

#[test]
fn form_feeds_are_white_space_between_attributes() {
    let strings = "<sst \u{c}uniqueCount=\"18446744073709551615\"></sst>";
    assert!(is_out_of_bounds(book_with(STYLES_XML, SHEET_XML, &[("xl/sharedStrings.xml", strings)])));
    for cell in [
        "<c \u{c}r=\"A4294967295\"><v>1</v></c>",
        "<c r\u{c}=\"A4294967295\"><v>1</v></c>",
        "<c r=\u{c}\"A4294967295\"><v>1</v></c>",
        "<c r=\"A1\"><f t=\"shared\" ref=\"A1:A2\" \u{c}si=\"9223372036854775807\">B1</f></c>",
        "<c r=\"A1\"><f t=\"shared\" \u{c}ref=\"A2:A1\" si=\"0\">B1</f></c>",
    ] {
        assert!(is_out_of_bounds(sheet_with("", &format!("<row>{cell}</row>"))), "{cell:?}");
    }
    assert!(is_out_of_bounds(sheet_with("<dimension \u{c}ref=\"B2:A1\"/>", "")));
    let styles = format!(
        "<styleSheet><numFmts><numFmt numFmtId=\"164\" \u{c}formatCode=\"{}\"/></numFmts></styleSheet>",
        "[".repeat(256)
    );
    assert!(is_out_of_bounds(book_with(&styles, SHEET_XML, &[])));
}

#[test]
fn parts_are_found_as_the_package_names_them() {
    let far = r#"<worksheet><sheetData><row><c r="A99999999999"/></row></sheetData></worksheet>"#;
    let book = |rels: &str, part: &str, sheet: &str| {
        package(&[
            ("_rels/.rels", PACKAGE_RELS_XML),
            ("xl/workbook.xml", WORKBOOK_XML),
            ("xl/_rels/workbook.xml.rels", rels),
            (part, sheet),
        ])
    };
    let absolute = RELS_XML.replace("worksheets/sheet1.xml", "/cells/first.xml");
    for (rels, part) in [
        (RELS_XML, "xl/Worksheets/SHEET1.xml"),
        (absolute.as_str(), "cells/first.xml"),
    ] {
        assert!(is_out_of_bounds(book(rels, part, far)), "{part}");
        assert_eq!(read_contents(book(rels, part, SHEET_XML)).unwrap().len(), 1);
    }

    let elsewhere = PACKAGE_RELS_XML.replace("xl/workbook.xml", "/book/main.xml");
    let moved = |sheet: &str| {
        package(&[
            ("_rels/.rels", elsewhere.as_str()),
            ("book/main.xml", WORKBOOK_XML),
            ("book/_rels/main.xml.rels", RELS_XML),
            ("book/worksheets/sheet1.xml", sheet),
        ])
    };
    assert!(is_out_of_bounds(moved(far)));
    assert_eq!(read_contents(moved(SHEET_XML)).unwrap().len(), 1);

    let many = r#"<sst uniqueCount="18446744073709551615"></sst>"#;
    let one = r#"<sst uniqueCount="1"><si><t>a</t></si></sst>"#;
    let both = |first: &str, second: &str| {
        let parts = [("xl/sharedStrings.xml", first), ("xl/SharedStrings.xml", second)];
        is_out_of_bounds(book_with(STYLES_XML, SHEET_XML, &parts))
    };
    assert!(both(one, many));
    assert!(!both(many, one));
}

fn set_long(bytes: &mut Vec<u8>, index: usize, number: u32) {
    bytes[index..index + 4].copy_from_slice(&number.to_le_bytes());
}

/// A compound file of a table, a directory with an entry of the given name, and changes.
fn compound(name: &str, changes: &[(usize, u32)]) -> Vec<u8> {
    let mut bytes = vec![0xd0, 0xcf, 0x11, 0xe0, 0xa1, 0xb1, 0x1a, 0xe1];
    bytes.resize(76, 0);
    bytes[26] = 3;
    bytes[30] = 9;
    bytes[32] = 6;
    set_long(&mut bytes, 48, 1);
    set_long(&mut bytes, 68, 0xffff_fffe);
    bytes.resize(1024, 0xff);
    set_long(&mut bytes, 76, 0);
    set_long(&mut bytes, 512, 0xffff_fffd);
    set_long(&mut bytes, 516, 0xffff_fffe);
    bytes.resize(1536, 0);
    set_long(&mut bytes, 1024 + 116, 0xffff_fffe);
    for (index, unit) in name.encode_utf16().enumerate() {
        bytes[1152 + 2 * index..1154 + 2 * index].copy_from_slice(&unit.to_le_bytes());
    }
    for (index, number) in changes {
        set_long(&mut bytes, *index, *number);
    }
    bytes
}

#[test]
fn compound_files_tell_of_their_password() {
    let encrypted = compound("EncryptedPackage", &[]);
    assert!(matches!(
        read_contents(encrypted),
        Err(XlsxError::Workbook(message)) if message == "Workbook is password protected"
    ));
    let other = compound("Other", &[]);
    assert!(matches!(
        read_contents(other),
        Err(XlsxError::Workbook(message)) if message != "Workbook is password protected"
    ));
    let mut followed = compound("Other", &[]);
    followed.extend(book());
    assert_eq!(read_contents(followed).unwrap()[0].name, "Sheet1");
    for changes in [
        [(64, 1), (60, 1)],
        [(48, 0x00ff_ffff), (64, 0)],
        [(68, 1), (64, 0)],
        [(76, 0x00ff_ffff), (64, 0)],
    ] {
        let bytes = compound("Other", &changes);
        assert!(matches!(read_contents(bytes), Err(XlsxError::Workbook(_))), "{changes:?}");
    }
}

#[test]
fn compound_files_that_lead_astray_are_refused() {
    for changes in [
        vec![(516, 1)],
        vec![(48, 2)],
        vec![(76, 0xffff_ffff)],
        vec![(76, 2)],
        vec![(68, 2)],
        vec![(64, 1), (60, 2)],
        vec![(64, 1), (1140, 2)],
        vec![(64, 1), (1140, 0), (512, 0), (1144, 9999)],
    ] {
        let bytes = compound("EncryptedPackage", &changes);
        assert!(matches!(read_contents(bytes), Err(XlsxError::Compound)), "{changes:?}");
    }
    assert_eq!(
        XlsxError::Compound.message(),
        "XLSX workbook is a compound file with sectors that lead astray"
    );
    assert_eq!(
        XlsxError::OutOfBounds.message(),
        "XLSX workbook holds a reference, a count or a number format out of bounds"
    );
}

#[test]
fn large_sectors_take_a_large_header() {
    let mut bytes = compound("Other", &[]);
    bytes[30] = 12;
    assert!(matches!(read_contents(bytes.clone()), Err(XlsxError::Workbook(_))));
    bytes.resize(4096, 0);
    assert!(matches!(read_contents(bytes.clone()), Err(XlsxError::Compound)));
    bytes.resize(8192, 0xff);
    set_long(&mut bytes, 4096, 0xffff_fffd);
    set_long(&mut bytes, 4100, 0xffff_fffe);
    bytes.resize(12288, 0);
    set_long(&mut bytes, 8192 + 116, 0xffff_fffe);
    assert!(matches!(read_contents(bytes.clone()), Err(XlsxError::Workbook(_))));
    set_long(&mut bytes, 4100, 1);
    assert!(matches!(read_contents(bytes), Err(XlsxError::Compound)));
}

#[test]
fn archives_behind_unreadable_compound_headers_are_read() {
    let signature = [0xd0, 0xcf, 0x11, 0xe0, 0xa1, 0xb1, 0x1a, 0xe1];
    assert!(matches!(read_contents(signature.to_vec()), Err(XlsxError::Workbook(_))));
    for (shift, small_shift) in [(0, 6), (9, 0), (10, 6)] {
        let mut bytes = signature.to_vec();
        bytes.resize(512, 0);
        bytes[30] = shift;
        bytes[32] = small_shift;
        bytes.extend(book());
        let contents = read_contents(bytes).unwrap();
        assert_eq!(contents[0].name, "Sheet1");
    }
}

#[test]
fn empty_cells_display_blank() {
    let none = written(&None);
    assert_eq!(display_cell(&SheetValue::Empty, None, &none), "");
    assert_eq!(display_cell(&SheetValue::Int(42), None, &none), "42");
    assert_eq!(display_cell(&SheetValue::Text("text".to_owned()), None, &none), "text");
    assert_eq!(display_cell(&SheetValue::Bool(false), None, &none), "false");
    assert_eq!(display_cell(&SheetValue::Int(-7), None, &none), "-7");
}

#[test]
fn dates_display_as_much_as_they_say() {
    assert_eq!(display_excel_datetime((2026, 2, 9, 0, 0, 0, 0)), "2026-02-09");
    assert_eq!(display_excel_datetime((2026, 2, 9, 7, 5, 3, 0)), "2026-02-09T07:05:03");
    assert_eq!(display_excel_datetime((2026, 2, 9, 7, 5, 3, 40)), "2026-02-09T07:05:03.040");
}

#[test]
fn formats_dollar_values() {
    let currency = CellDisplayFormat::Currency { decimals: 2 };

    assert_eq!(currency.format_number(&number_text(&currency, 1234.5)), "$1,234.50");
    assert_eq!(currency.format_number(&number_text(&currency, -1234.5)), "-$1,234.50");
}

#[test]
fn formats_percentage_values() {
    let one_decimal = CellDisplayFormat::Percentage { decimals: 1 };
    let two_decimals = CellDisplayFormat::from_format_code("0.00%").unwrap();

    assert_eq!(one_decimal.format_number(&number_text(&one_decimal, 0.152)), "15.2%");
    assert_eq!(
        two_decimals.format_number(&number_text(&two_decimals, 1.137_370_086)),
        "113.74%"
    );
}

#[test]
fn format_codes_say_how_to_display() {
    assert!(is_percentage_format("0%") && !is_percentage_format("0"));
    assert!(is_dollar_format("$0") && !is_dollar_format("0"));
    assert_eq!(format_decimals("0.00;(0.0)"), 2);
    assert_eq!(format_decimals("#,##0"), 0);
    assert_eq!(
        CellDisplayFormat::from_format_code("$#,##0.0"),
        Some(CellDisplayFormat::Currency { decimals: 1 })
    );
    assert_eq!(CellDisplayFormat::from_format_code("General"), None);
    let text = NumberText { negative: false, digits: "1234567".to_owned() };
    assert_eq!(format_currency(&text, 0), "$1,234,567");
    assert_eq!(format_percentage(&text), "1234567%");
    let formats = builtin_number_formats();
    assert_eq!(formats.get(&9).map(String::as_str), Some("0%"));
    assert_eq!(formats.get(&1), None);
}

#[test]
fn colors_and_borders_are_read() {
    assert_eq!(parse_argb_color("FF112233"), Some(0x11_22_33));
    assert_eq!(parse_argb_color("112233"), Some(0x11_22_33));
    assert_eq!(parse_argb_color("zzzzzz"), None);
    assert_eq!(border_side("left"), Some(BorderSide::Left));
    assert_eq!(border_side("diagonal"), None);
    let mut borders = CellBorders::default();
    set_border_side(&mut borders, BorderSide::Bottom, Some(5));
    assert_eq!(borders.bottom, Some(5));
    assert_eq!(borders.top, None);
}

#[test]
fn values_of_every_kind_become_cells() {
    let content = SheetContent {
        name: "Sheet1".to_owned(),
        values: vec![vec![
            SheetValue::IsoDateTime("2026-01-01T00:00:00".to_owned()),
            SheetValue::IsoDuration("PT1H".to_owned()),
            SheetValue::Error("#DIV/0!".to_owned()),
            SheetValue::DateTime((2026, 1, 2, 0, 0, 0, 0)),
        ]],
        formulas: vec![vec![None, None, None, Some(String::new())]],
    };
    let metadata = XlsxMetadata::read(book()).unwrap();
    let numbers = vec![vec![written(&None), written(&None), written(&None), written(&None)]];
    let rows = make_cells(&content, metadata.sheet_metadata("Unknown"), &numbers);
    assert_eq!(rows[0][0].value, "2026-01-01T00:00:00");
    assert_eq!(rows[0][0].raw_value, CellRawValue::DateTime);
    assert_eq!(rows[0][1].value, "PT1H");
    assert_eq!(rows[0][2].value, "#DIV/0!");
    assert_eq!(rows[0][2].raw_value, CellRawValue::Text);
    assert_eq!(rows[0][3].value, "2026-01-02");
}
