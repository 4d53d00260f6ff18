//! The command line: which output is asked for, and of what file.

use vstd::prelude::*;

use crate::numbers::{decimal, decimal_text, decimal_text_reads_back, parsed_number};
use crate::references::{
    column_label, column_letters, column_name_spells_its_number, column_number,
};
use crate::sheet::{SheetData, SheetView};
use crate::text::{ascii_lowered, lower_text, same_text};

verus! {

/// How a sheet is displayed.
#[derive(Debug, Clone, Copy, PartialEq, Eq, Structural)]
pub enum DisplayMode {
    Gui,
    Json,
    Xml,
    Table,
    Audit,
}

/// What was given on the command line.
pub struct Cli {
    /// The name or number of a sheet.
    pub sheet: Option<String>,
    /// Whether the sheets are to be listed.
    pub list_sheets: bool,
    pub display: DisplayMode,
    /// The file to open.
    pub path: Option<String>,
}

/// The message for more than one output mode.
pub open spec fn one_mode_message() -> Seq<char> {
    "choose only one output mode: --list-sheets or --display"@
}

/// The message for a missing file.
pub open spec fn missing_path_message() -> Seq<char> {
    "missing spreadsheet file path"@
}

/// What is wrong with a command line, if anything is.
pub open spec fn refusal(cli: Cli) -> Option<Seq<char>> {
    if cli.list_sheets && cli.display != DisplayMode::Gui {
        Some(one_mode_message())
    } else if cli.path is None && (cli.display != DisplayMode::Gui || cli.list_sheets
        || cli.sheet is Some) {
        Some(missing_path_message())
    } else {
        None
    }
}

/// Refuses a command line that asks for two outputs, or for one without a file.
pub fn validate_output_mode(cli: &Cli) -> (validity: Result<(), String>)
    ensures
        match validity {
            Ok(()) => refusal(*cli) is None,
            Err(message) => refusal(*cli) == Some(message@),
        },
{
    if cli.list_sheets && cli.display != DisplayMode::Gui {
        return Err("choose only one output mode: --list-sheets or --display".to_owned());
    }
    if cli.path.is_none() && (cli.display != DisplayMode::Gui || cli.list_sheets
        || cli.sheet.is_some()) {
        return Err("missing spreadsheet file path".to_owned());
    }
    Ok(())
}

/// What the program does.
#[derive(Debug, Clone, Copy, PartialEq, Eq, Structural)]
pub enum RunMode {
    /// List the sheets of the file.
    ListSheets,
    /// Print a sheet of the file.
    Print(DisplayMode),
    /// Open windows.
    Windows,
}

/// What a command line that is not refused asks for.
pub open spec fn asked_for(cli: Cli) -> RunMode {
    if cli.list_sheets {
        RunMode::ListSheets
    } else if cli.display == DisplayMode::Gui {
        RunMode::Windows
    } else {
        RunMode::Print(cli.display)
    }
}

/// Decides what the program does. Listing and printing always have a file.
pub fn run_mode(cli: &Cli) -> (mode: Result<RunMode, String>)
    ensures
        match mode {
            Ok(mode) => refusal(*cli) is None && mode == asked_for(*cli) && (mode
                != RunMode::Windows ==> cli.path is Some),
            Err(message) => refusal(*cli) == Some(message@),
        },
{
    match validate_output_mode(cli) {
        Err(message) => Err(message),
        Ok(()) => if cli.list_sheets {
            Ok(RunMode::ListSheets)
        } else if cli.display == DisplayMode::Gui {
            Ok(RunMode::Windows)
        } else {
            Ok(RunMode::Print(cli.display))
        },
    }
}

/// The kinds of file that can be opened.
#[derive(Debug, Clone, Copy, PartialEq, Eq, Structural)]
pub enum FileFormat {
    Csv,
    Parquet,
    Xlsx,
}

/// The kind of file that an extension stands for, in upper or lower case.
pub open spec fn format_of(extension: Option<Seq<char>>) -> Option<FileFormat> {
    match extension {
        Some(extension) => {
            let extension = ascii_lowered(extension);
            if extension == "csv"@ {
                Some(FileFormat::Csv)
            } else if extension == "parquet"@ {
                Some(FileFormat::Parquet)
            } else if extension == "xlsx"@ {
                Some(FileFormat::Xlsx)
            } else {
                None
            }
        },
        None => None,
    }
}

/// The message for a file that cannot be opened.
pub open spec fn unsupported_message(extension: Option<Seq<char>>) -> Seq<char> {
    match extension {
        Some(extension) => "unsupported file extension '."@ + ascii_lowered(extension)
            + "'; expected .csv, .parquet, or .xlsx"@,
        None => "unsupported file without extension; expected .csv, .parquet, or .xlsx"@,
    }
}

/// Tells the kind of a file from its extension.
pub fn validate_workbook_extension(extension: Option<&str>) -> (format: Result<FileFormat, String>)
    ensures
        ({
            let extension = match extension {
                Some(extension) => Some(extension@),
                None => None,
            };
            match format {
                Ok(format) => format_of(extension) == Some(format),
                Err(message) => format_of(extension) is None && message@ == unsupported_message(
                    extension,
                ),
            }
        }),
{
    match extension {
        Some(extension) => {
            let lower = lower_text(extension);
            if same_text(lower.as_str(), "csv") {
                Ok(FileFormat::Csv)
            } else if same_text(lower.as_str(), "parquet") {
                Ok(FileFormat::Parquet)
            } else if same_text(lower.as_str(), "xlsx") {
                Ok(FileFormat::Xlsx)
            } else {
                let mut message = "unsupported file extension '.".to_owned();
                message.push_str(lower.as_str());
                message.push_str("'; expected .csv, .parquet, or .xlsx");
                Err(message)
            }
        },
        None => Err(
            "unsupported file without extension; expected .csv, .parquet, or .xlsx".to_owned(),
        ),
    }
}

/// The contents of texts.
pub open spec fn texts_view(texts: Seq<String>) -> Seq<Seq<char>> {
    texts.map_values(|text: String| text@)
}

/// The header of a sheet that is printed as a table: a blank corner, then the
/// columns' names.
pub open spec fn header_texts(col_count: nat) -> Seq<Seq<char>> {
    seq![Seq::<char>::empty()] + Seq::new(col_count, |col: int| column_letters(col as nat))
}

/// The header of a sheet that is printed as a table.
pub fn table_header(sheet: &SheetData) -> (header: Vec<String>)
    ensures
        texts_view(header@) == header_texts(sheet@.col_count),
{
    let ghost expected = header_texts(sheet@.col_count);
    let mut header: Vec<String> = Vec::new();
    header.push(String::new());
    let col_count: usize = sheet.col_count();
    let mut col: usize = 0;
    assert(texts_view(header@) =~= expected.take(1));
    while col < col_count
        invariant
            col <= col_count,
            col_count == sheet@.col_count,
            expected == header_texts(sheet@.col_count),
            texts_view(header@) == expected.take(col + 1),
        decreases col_count - col,
    {
        let ghost before = header@;
        header.push(column_label(col));
        col += 1;
        assert(texts_view(header@) =~= texts_view(before).push(header@.last()@));
        assert(texts_view(header@) =~= expected.take(col + 1));
    }
    assert(expected.take(col + 1) == expected);
    header
}

/// A row of a sheet that is printed as a table: the row's number, then the
/// values.
pub open spec fn row_texts(sheet: SheetView, row: int) -> Seq<Seq<char>> {
    seq![decimal((row + 1) as nat)] + Seq::new(
        sheet.col_count,
        |col: int| sheet.cell(row, col).value,
    )
}

/// A row of a sheet that is printed as a table.
pub fn table_row(sheet: &SheetData, row: usize) -> (texts: Vec<String>)
    requires
        row < sheet@.row_count,
    ensures
        texts_view(texts@) == row_texts(sheet@, row as int),
{
    let ghost expected = row_texts(sheet@, row as int);
    let mut texts: Vec<String> = Vec::new();
    let row_count: usize = sheet.row_count();
    assert(row < row_count);
    texts.push(decimal_text((row + 1) as u64));
    let col_count: usize = sheet.col_count();
    let mut col: usize = 0;
    assert(texts_view(texts@) =~= expected.take(1));
    while col < col_count
        invariant
            col <= col_count,
            col_count == sheet@.col_count,
            expected == row_texts(sheet@, row as int),
            texts_view(texts@) == expected.take(col + 1),
        decreases col_count - col,
    {
        let ghost before = texts@;
        let cell = sheet.cell_data(row, col);
        texts.push(cell.value);
        col += 1;
        assert(texts_view(texts@) =~= texts_view(before).push(texts@.last()@));
        assert(texts_view(texts@) =~= expected.take(col + 1));
    }
    assert(expected.take(col + 1) == expected);
    texts
}

/// A command line is refused exactly where it asks for two outputs, or for one without a file;
/// where it does both, the two outputs are what is said.
pub proof fn requests_without_conflict_are_accepted(cli: Cli)
    ensures
        cli.display == DisplayMode::Gui && !cli.list_sheets && cli.path is None && cli.sheet is None
            ==> refusal(cli) is None,
        cli.path is Some && !cli.list_sheets ==> refusal(cli) is None,
        cli.path is Some && cli.display == DisplayMode::Gui ==> refusal(cli) is None,
        cli.list_sheets && cli.display != DisplayMode::Gui ==> refusal(cli) == Some(
            one_mode_message(),
        ),
        cli.path is None && cli.sheet is Some && !(cli.list_sheets && cli.display
            != DisplayMode::Gui) ==> refusal(cli) == Some(missing_path_message()),
        cli.path is None && cli.list_sheets && cli.display == DisplayMode::Gui ==> refusal(cli)
            == Some(missing_path_message()),
        cli.path is None && !cli.list_sheets && cli.display != DisplayMode::Gui ==> refusal(cli)
            == Some(missing_path_message()),
{
}

/// A command line that is not refused gets the one output that it asks for: the list, the
/// print in its mode, or windows where it asks for neither.
pub proof fn accepted_requests_get_their_output(cli: Cli)
    requires
        refusal(cli) is None,
    ensures
        asked_for(cli) == RunMode::ListSheets <==> cli.list_sheets,
        cli.display != DisplayMode::Gui <==> asked_for(cli) == RunMode::Print(cli.display),
        asked_for(cli) == RunMode::Windows <==> !cli.list_sheets && cli.display == DisplayMode::Gui,
        asked_for(cli) != RunMode::Windows ==> cli.path is Some,
{
}

/// Extensions in capitals name the same formats, and each format has an extension of its own.
pub proof fn extensions_name_formats_in_any_case(left: Seq<char>, right: Seq<char>)
    requires
        ascii_lowered(left) == ascii_lowered(right),
    ensures
        format_of(Some(left)) == format_of(Some(right)),
        format_of(Some(left)) == Some(FileFormat::Csv) <==> ascii_lowered(left) == seq![
            'c',
            's',
            'v',
        ],
        format_of(Some(left)) == Some(FileFormat::Parquet) <==> ascii_lowered(left) == seq![
            'p',
            'a',
            'r',
            'q',
            'u',
            'e',
            't',
        ],
        format_of(Some(left)) == Some(FileFormat::Xlsx) <==> ascii_lowered(left) == seq![
            'x',
            'l',
            's',
            'x',
        ],
        format_of(None) is None,
{
    reveal_strlit("csv");
    reveal_strlit("parquet");
    reveal_strlit("xlsx");
    let (csv, parquet, xlsx) = ("csv"@, "parquet"@, "xlsx"@);
    assert(csv =~= seq!['c', 's', 'v']);
    assert(parquet =~= seq!['p', 'a', 'r', 'q', 'u', 'e', 't']);
    assert(xlsx =~= seq!['x', 'l', 's', 'x']);
    assert(csv.len() == 3 && parquet.len() == 7 && xlsx.len() == 4);
}

/// A printed row begins with the row's number, counted from one, and has each cell's text below
/// its column's name.
pub proof fn printed_rows_stand_below_the_names(sheet: SheetView, row: int, col: int)
    requires
        0 <= row,
        0 <= col < sheet.col_count,
    ensures
        row_texts(sheet, row).len() == header_texts(sheet.col_count).len() == sheet.col_count + 1,
        parsed_number(row_texts(sheet, row)[0], 10) == Some((row + 1) as nat),
        header_texts(sheet.col_count)[0] == Seq::<char>::empty(),
        row_texts(sheet, row)[col + 1] == sheet.cell(row, col).value,
        column_number(header_texts(sheet.col_count)[col + 1]) == col + 1,
{
    decimal_text_reads_back((row + 1) as nat);
    column_name_spells_its_number(col as nat);
}

/// What is said of a file that cannot be opened names its extension in small letters.
pub proof fn refused_extensions_are_named(extension: Seq<char>)
    ensures
        unsupported_message(Some(extension)).subrange(29, 29 + extension.len() as int)
            == ascii_lowered(extension),
        unsupported_message(Some(extension)).len() == extension.len() + 65,
{
    reveal_strlit("unsupported file extension '.");
    reveal_strlit("'; expected .csv, .parquet, or .xlsx");
    assert(ascii_lowered(extension).len() == extension.len());
    let message = unsupported_message(Some(extension));
    assert(message.subrange(29, 29 + extension.len() as int) =~= ascii_lowered(extension));
}

} // verus!
