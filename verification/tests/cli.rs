//! The command line, file URLs, the splash screen and the property list.

use std::path::Path;

use spread::audit::{formula_audit_exit_code, FormulaAudit, FormulaInconsistency};
use spread::cell::CellData;
use spread::cli::{
    run_mode, table_header, table_row, validate_output_mode, validate_workbook_extension, Cli,
    DisplayMode, FileFormat, RunMode,
};
use spread::escape::{xml_attr, xml_text};
use spread::pixels::Pixels;
use spread::plist::update_plist_versions;
use spread::sheet::SheetData;
use spread::shell::{
    after_window_closed, opens_splash_at_start, window_title, AfterClose, OpenOutcome, SplashState,
    SPLASH_ERROR_TEXT, SPLASH_MUTED_TEXT,
};
use spread::urls::{file_url_to_path, hex_value, percent_decode};

fn px(length: f32) -> Pixels {
    Pixels { bits: length.to_bits() }
}

fn cli(display: DisplayMode, path: Option<&str>) -> Cli {
    Cli { sheet: None, list_sheets: false, display, path: path.map(str::to_owned) }
}

fn extension(path: &str) -> Option<&str> {
    Path::new(path).extension().and_then(|extension| extension.to_str())
}

#[test]
fn allows_gui_without_path() {
    let cli = cli(DisplayMode::Gui, None);
    validate_output_mode(&cli).unwrap();
    assert_eq!(cli.display, DisplayMode::Gui);
    assert_eq!(cli.path, None);
    assert_eq!(run_mode(&cli), Ok(RunMode::Windows));
}

#[test]
fn rejects_missing_cli_path_for_output_modes() {
    let cli = cli(DisplayMode::Table, None);
    let error = validate_output_mode(&cli).unwrap_err();
    assert!(error.contains("missing spreadsheet file path"));
}

#[test]
fn rejects_missing_cli_path_with_sheet() {
    let mut cli = cli(DisplayMode::Gui, None);
    cli.sheet = Some("Summary".to_owned());
    let error = validate_output_mode(&cli).unwrap_err();
    assert!(error.contains("missing spreadsheet file path"));
}

#[test]
fn rejects_two_output_modes() {
    let mut cli = cli(DisplayMode::Json, Some("book.xlsx"));
    cli.list_sheets = true;
    assert_eq!(
        validate_output_mode(&cli),
        Err("choose only one output mode: --list-sheets or --display".to_owned())
    );
    assert!(run_mode(&cli).is_err());
}

#[test]
fn chooses_what_to_run() {
    assert_eq!(
        run_mode(&cli(DisplayMode::Xml, Some("book.xlsx"))),
        Ok(RunMode::Print(DisplayMode::Xml))
    );
    assert_eq!(run_mode(&cli(DisplayMode::Gui, Some("book.xlsx"))), Ok(RunMode::Windows));
    let mut list = cli(DisplayMode::Gui, Some("book.xlsx"));
    list.list_sheets = true;
    assert_eq!(run_mode(&list), Ok(RunMode::ListSheets));
    list.path = None;
    assert_eq!(run_mode(&list), Err("missing spreadsheet file path".to_owned()));
}

#[test]
fn validates_gui_workbook_extension_before_loading() {
    validate_workbook_extension(extension("book.csv")).unwrap();
    validate_workbook_extension(extension("book.parquet")).unwrap();
    validate_workbook_extension(extension("book.xlsx")).unwrap();

    let error = validate_workbook_extension(extension("book.tsv")).unwrap_err();
    assert!(error.contains("unsupported file extension"));
}

#[test]
fn rejects_unsupported_extension() {
    let error = validate_workbook_extension(extension("book.tsv")).unwrap_err();
    assert!(error.contains("unsupported file extension"));
    assert_eq!(
        error,
        "unsupported file extension '.tsv'; expected .csv, .parquet, or .xlsx"
    );
    assert_eq!(
        validate_workbook_extension(extension("book")),
        Err("unsupported file without extension; expected .csv, .parquet, or .xlsx".to_owned())
    );
    assert_eq!(validate_workbook_extension(extension("B.XLSX")), Ok(FileFormat::Xlsx));
    assert_eq!(validate_workbook_extension(extension("B.Csv")), Ok(FileFormat::Csv));
    assert_eq!(validate_workbook_extension(extension("b.parquet")), Ok(FileFormat::Parquet));
}

#[test]
fn converts_file_urls_to_paths() {
    assert_eq!(
        file_url_to_path("file:///Users/samuel/My%20File.xlsx").as_deref().map(Path::new),
        Some(Path::new("/Users/samuel/My File.xlsx"))
    );
    assert_eq!(
        file_url_to_path("file://localhost/Users/samuel/book.csv").as_deref().map(Path::new),
        Some(Path::new("/Users/samuel/book.csv"))
    );
}

#[test]
fn refuses_urls_that_cannot_be_read() {
    assert_eq!(file_url_to_path("https://example.com/book.csv"), None);
    assert_eq!(file_url_to_path("file:///a%2"), None);
    assert_eq!(file_url_to_path("file:///a%zz"), None);
    assert_eq!(file_url_to_path("file:///%ff"), None);
    assert_eq!(percent_decode("%C3%A4%25"), Some("ä%".to_owned()));
    assert_eq!(percent_decode("%66%6f%6F"), Some("foo".to_owned()));
    assert_eq!(percent_decode("plain ä"), Some("plain ä".to_owned()));
    assert_eq!(hex_value(b'7'), Some(7));
    assert_eq!(hex_value(b'c'), Some(12));
    assert_eq!(hex_value(b'F'), Some(15));
    assert_eq!(hex_value(b'g'), None);
}

#[test]
fn audit_reports_exit_code_for_inconsistencies() {
    let audit = FormulaAudit {
        sheet: "Sheet1".to_owned(),
        inconsistencies: vec![FormulaInconsistency {
            cell: "A1".to_owned(),
            formula: "1+1".to_owned(),
            cached_value: "3".to_owned(),
            calculated_value: "2".to_owned(),
        }],
        ..Default::default()
    };

    assert_eq!(formula_audit_exit_code(&vec![audit]), 1);
    assert_eq!(formula_audit_exit_code(&vec![FormulaAudit::default()]), 0);
}

#[test]
fn audit_xml_escapes_text_and_attributes() {
    assert_eq!(xml_attr("A&B\"C"), "A&amp;B&quot;C");
    assert_eq!(xml_text("1 < 2 && 3 > 2"), "1 &lt; 2 &amp;&amp; 3 &gt; 2");
}

#[test]
fn tables_have_a_header_and_numbered_rows() {
    let mut cell = CellData::default();
    cell.value = "x".to_owned();
    let sheet = SheetData::new(
        None,
        vec![Vec::new(), vec![CellData::default(), cell]],
        Vec::new(),
        &Vec::new(),
        px(120.0),
        px(24.0),
        &vec![px(24.0), px(24.0)],
    );
    assert_eq!(table_header(&sheet), vec!["", "A", "B"]);
    assert_eq!(table_row(&sheet, 0), vec!["1", "", ""]);
    assert_eq!(table_row(&sheet, 1), vec!["2", "", "x"]);
}

#[test]
fn splash_screen_shows_what_goes_on() {
    let mut splash = SplashState::new();
    assert_eq!(splash.status_line(), (String::new(), SPLASH_ERROR_TEXT));
    splash.begin_opening(None);
    assert_eq!(splash.status_line(), ("Opening workbook…".to_owned(), SPLASH_MUTED_TEXT));
    splash.begin_opening(Some("book.csv".to_owned()));
    assert_eq!(splash.status_line(), ("Opening book.csv…".to_owned(), SPLASH_MUTED_TEXT));
    let failed = |path: &str| OpenOutcome {
        path: path.to_owned(),
        error: Some("no such file".to_owned()),
    };
    assert!(!splash.finish_opening(&vec![failed("/a"), failed("/b")]));
    assert_eq!(splash.status_line(), ("/b: no such file".to_owned(), SPLASH_ERROR_TEXT));
    splash.begin_opening(None);
    let opened = OpenOutcome { path: "/c".to_owned(), error: None };
    assert!(splash.finish_opening(&vec![opened, failed("/b")]));
    assert_eq!(splash.status_line(), (String::new(), SPLASH_ERROR_TEXT));
}

#[test]
fn windows_open_and_close() {
    assert!(opens_splash_at_start(false, false));
    assert!(!opens_splash_at_start(true, false));
    assert!(!opens_splash_at_start(false, true));
    assert_eq!(after_window_closed(true, 0, false, 0), AfterClose::OpenSplash);
    assert_eq!(after_window_closed(true, 1, false, 1), AfterClose::Stay);
    assert_eq!(after_window_closed(true, 0, true, 1), AfterClose::Stay);
    assert_eq!(after_window_closed(false, 0, false, 0), AfterClose::Quit);
    assert_eq!(after_window_closed(false, 1, false, 1), AfterClose::Stay);
    assert_eq!(window_title("book.csv"), "spread - book.csv");
}

#[test]
fn versions_are_put_into_the_property_list() {
    let plist = "<dict>\n<key>CFBundleVersion</key>\n<string>0.1</string>\n\
                 <key>CFBundleShortVersionString</key><string></string>\n</dict>";
    let updated = "<dict>\n<key>CFBundleVersion</key>\n<string>1.2.3</string>\n\
                   <key>CFBundleShortVersionString</key><string>1.2.3</string>\n</dict>";
    assert_eq!(update_plist_versions(plist, "1.2.3"), updated);
    assert_eq!(update_plist_versions(updated, "1.2.3"), updated);
    for broken in [
        "",
        "<key>CFBundleVersion</key>",
        "<key>CFBundleVersion</key><string>",
        "<key>Other</key><string>1</string>",
    ] {
        assert_eq!(update_plist_versions(broken, "1.2.3"), broken);
    }
}
