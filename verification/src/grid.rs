//! The values and formulas of XLSX sheets.

use std::io::Cursor;

use calamine::{Data, Reader};
use vstd::prelude::*;

use crate::cell::text_view;
use crate::compound::{can_be_followed, follows_sectors};
use crate::errors::{XlsxError, XlsxErrorView};
use crate::metadata::texts_view;
use crate::opening::{fits_package, package_fits};

verus! {

/// The workbook reader of `calamine`.
#[verifier::external_type_specification]
#[verifier::external_body]
#[verifier::reject_recursive_types(RS)]
pub struct ExXlsx<RS>(calamine::Xlsx<RS>);

/// A rectangle of values of `calamine`.
#[verifier::external_type_specification]
#[verifier::external_body]
#[verifier::reject_recursive_types(T)]
pub struct ExSheetRange<T>(calamine::Range<T>);

/// A cell value of `calamine`.
#[verifier::external_type_specification]
#[verifier::external_body]
pub struct ExSheetData(calamine::Data);

/// A point in time: year, month, day, hour, minute, second and millisecond.
pub type DateTimeParts = (u16, u8, u8, u8, u8, u8, u16);

/// The value of a cell as the file holds it.
#[derive(Debug)]
pub enum SheetValue {
    Empty,
    Int(i64),
    /// A number, by the bit pattern of its double-precision representation.
    Float(u64),
    Text(String),
    Bool(bool),
    DateTime(DateTimeParts),
    /// A date and time in ISO 8601 notation.
    IsoDateTime(String),
    /// A duration in ISO 8601 notation.
    IsoDuration(String),
    /// An error, by its name.
    Error(String),
}

/// The mathematical content of a [`SheetValue`].
#[verifier::ext_equal]
pub enum SheetValueView {
    Empty,
    Int(i64),
    Float(u64),
    Text(Seq<char>),
    Bool(bool),
    DateTime(DateTimeParts),
    IsoDateTime(Seq<char>),
    IsoDuration(Seq<char>),
    Error(Seq<char>),
}

impl View for SheetValue {
    type V = SheetValueView;

    open spec fn view(&self) -> SheetValueView {
        match self {
            SheetValue::Empty => SheetValueView::Empty,
            SheetValue::Int(value) => SheetValueView::Int(*value),
            SheetValue::Float(bits) => SheetValueView::Float(*bits),
            SheetValue::Text(text) => SheetValueView::Text(text@),
            SheetValue::Bool(value) => SheetValueView::Bool(*value),
            SheetValue::DateTime(parts) => SheetValueView::DateTime(*parts),
            SheetValue::IsoDateTime(text) => SheetValueView::IsoDateTime(text@),
            SheetValue::IsoDuration(text) => SheetValueView::IsoDuration(text@),
            SheetValue::Error(name) => SheetValueView::Error(name@),
        }
    }
}

/// The content of rows of values.
pub open spec fn values_view(rows: Seq<Vec<SheetValue>>) -> Seq<Seq<SheetValueView>> {
    rows.map_values(
        |row: Vec<SheetValue>| row@.map_values(|value: SheetValue| value@),
    )
}

/// The formulas of a sheet by absolute row and column.
pub type FormulaMap = Map<(u32, u32), Seq<char>>;

/// Why some bytes cannot be opened as an XLSX workbook, if they cannot.
pub uninterp spec fn xlsx_open_error(bytes: Seq<u8>) -> Option<Seq<char>>;

/// The names of the sheets of the workbook that some bytes are.
pub uninterp spec fn xlsx_sheet_names(bytes: Seq<u8>) -> Seq<Seq<char>>;

/// The rows of the smallest rectangle that holds a sheet's values, or why the
/// sheet cannot be read.
pub uninterp spec fn xlsx_values(bytes: Seq<u8>, sheet: Seq<char>) -> Result<
    Seq<Seq<SheetValueView>>,
    Seq<char>,
>;

/// The formulas of a sheet, unless they cannot be read.
pub uninterp spec fn xlsx_formulas(bytes: Seq<u8>, sheet: Seq<char>) -> Option<FormulaMap>;

/// The bytes that a workbook was opened from.
pub uninterp spec fn workbook_bytes(workbook: &calamine::Xlsx<Cursor<Vec<u8>>>) -> Seq<u8>;

/// The rows of a rectangle of values.
pub uninterp spec fn range_values(range: &calamine::Range<Data>) -> Seq<Seq<SheetValueView>>;

/// The texts of a rectangle of formulas, by absolute row and column.
pub uninterp spec fn range_formulas(range: &calamine::Range<String>) -> FormulaMap;

/// `calamine::Xlsx::new`: opens the workbook that the bytes are.
///
/// It follows the sectors of a compound file without a test, counts the brackets of a
/// number format in 8 bits, and sets memory aside for as many shared strings as are
/// announced. It panics where that fails.
#[verifier::external_body]
fn open_workbook(bytes: Vec<u8>) -> (workbook: Result<calamine::Xlsx<Cursor<Vec<u8>>>, String>)
    requires
        can_be_followed(bytes@),
        package_fits(bytes@),
    ensures
        match workbook {
            Ok(workbook) => xlsx_open_error(bytes@) is None && workbook_bytes(&workbook) == bytes@,
            Err(message) => xlsx_open_error(bytes@) == Some(message@),
        },
{
    calamine::Xlsx::new(Cursor::new(bytes)).map_err(|error| error.to_string())
}

/// `calamine::Reader::sheet_names`: the names of the sheets in workbook order.
#[verifier::external_body]
fn sheet_names(workbook: &calamine::Xlsx<Cursor<Vec<u8>>>) -> (names: Vec<String>)
    ensures
        names@.map_values(|name: String| name@) == xlsx_sheet_names(workbook_bytes(workbook)),
{
    workbook.sheet_names()
}

/// `calamine::Reader::worksheet_range`: the values of a sheet.
///
/// It counts rows and columns in 32 bits, takes the end of the sheet's dimension to lie
/// behind its start, and sets memory aside for the rectangle that the cells span. It
/// panics where that fails.
#[verifier::external_body]
fn worksheet_range(workbook: &mut calamine::Xlsx<Cursor<Vec<u8>>>, name: &str) -> (range: Result<
    calamine::Range<Data>,
    String,
>)
    requires
        package_fits(workbook_bytes(old(workbook))),
    ensures
        workbook_bytes(final(workbook)) == workbook_bytes(old(workbook)),
        match range {
            Ok(range) => xlsx_values(workbook_bytes(old(workbook)), name@) == Ok::<_, Seq<char>>(
                range_values(&range),
            ),
            Err(message) => xlsx_values(workbook_bytes(old(workbook)), name@) == Err::<
                Seq<Seq<SheetValueView>>,
                _,
            >(message@),
        },
{
    workbook.worksheet_range(name).map_err(|error| error.to_string())
}

/// `calamine::Range::rows`: the rows of a rectangle, each value taken over as it
/// is. A date is taken by `ExcelDateTime::to_ymd_hms_milli`, which stops at the last
/// day of the calendar, an error by its display text.
#[verifier::external_body]
fn range_rows(range: &calamine::Range<Data>) -> (rows: Vec<Vec<SheetValue>>)
    ensures
        values_view(rows@) == range_values(range),
{
    let convert = |value| match value {
        Data::Empty => SheetValue::Empty,
        Data::Int(value) => SheetValue::Int(value),
        Data::Float(value) => SheetValue::Float(value.to_bits()),
        Data::String(text) => SheetValue::Text(text),
        Data::Bool(value) => SheetValue::Bool(value),
        Data::DateTime(value) => SheetValue::DateTime(value.to_ymd_hms_milli()),
        Data::DateTimeIso(text) => SheetValue::IsoDateTime(text),
        Data::DurationIso(text) => SheetValue::IsoDuration(text),
        Data::Error(error) => SheetValue::Error(error.to_string()),
    };
    range.rows().map(|row| row.iter().cloned().map(convert).collect()).collect()
}

/// `calamine::Reader::worksheet_formula`: the formulas of a sheet.
///
/// Besides what holds of the values, it takes the end of a shared formula's range to
/// lie behind its start, and sets memory aside for as many shared formulas as the index
/// of one says. It panics where that fails.
#[verifier::external_body]
fn worksheet_formula(workbook: &mut calamine::Xlsx<Cursor<Vec<u8>>>, name: &str) -> (range: Option<
    calamine::Range<String>,
>)
    requires
        package_fits(workbook_bytes(old(workbook))),
    ensures
        workbook_bytes(final(workbook)) == workbook_bytes(old(workbook)),
        match range {
            Some(range) => xlsx_formulas(workbook_bytes(old(workbook)), name@) == Some(
                range_formulas(&range),
            ),
            None => xlsx_formulas(workbook_bytes(old(workbook)), name@) is None,
        },
{
    workbook.worksheet_formula(name).ok()
}

/// `calamine::Range::get_value`: the text at an absolute position, where the
/// rectangle has it.
#[verifier::external_body]
fn formula_in_range(range: &calamine::Range<String>, row: u32, col: u32) -> (formula: Option<
    String,
>)
    ensures
        match formula {
            Some(formula) => range_formulas(range).contains_key((row, col)) && range_formulas(
                range,
            )[(row, col)] == formula@,
            None => !range_formulas(range).contains_key((row, col)),
        },
{
    range.get_value((row, col)).cloned()
}

/// The formula of a cell, unless it is absent or empty. Positions past 32 bits
/// have none.
pub open spec fn formula_at_spec(formulas: Option<FormulaMap>, row: int, col: int) -> Option<
    Seq<char>,
> {
    match formulas {
        Some(formulas) => if row <= u32::MAX && col <= u32::MAX && formulas.contains_key(
            (row as u32, col as u32),
        ) && formulas[(row as u32, col as u32)].len() > 0 {
            Some(formulas[(row as u32, col as u32)])
        } else {
            None
        },
        None => None,
    }
}

/// The content of an optional rectangle of formulas.
spec fn formulas_of(range: Option<calamine::Range<String>>) -> Option<FormulaMap> {
    match range {
        Some(range) => Some(range_formulas(&range)),
        None => None,
    }
}

/// The formula of a cell, unless it is absent or empty.
fn formula_at(formulas: &Option<calamine::Range<String>>, row: usize, col: usize) -> (formula:
    Option<String>)
    ensures
        text_view(formula) == formula_at_spec(formulas_of(*formulas), row as int, col as int),
{
    match formulas {
        None => None,
        Some(range) => {
            if row > u32::MAX as usize || col > u32::MAX as usize {
                return None;
            }
            match formula_in_range(range, row as u32, col as u32) {
                Some(formula) => if formula.as_str().is_empty() {
                    None
                } else {
                    Some(formula)
                },
                None => None,
            }
        },
    }
}

/// What the file holds of a sheet: values, and for each value's position the
/// formula there.
pub struct SheetContent {
    pub name: String,
    pub values: Vec<Vec<SheetValue>>,
    pub formulas: Vec<Vec<Option<String>>>,
}

/// The mathematical content of a [`SheetContent`].
#[verifier::ext_equal]
pub struct SheetContentView {
    pub name: Seq<char>,
    pub values: Seq<Seq<SheetValueView>>,
    pub formulas: Seq<Seq<Option<Seq<char>>>>,
}

/// The content of rows of optional texts.
pub open spec fn formula_rows_view(rows: Seq<Vec<Option<String>>>) -> Seq<
    Seq<Option<Seq<char>>>,
> {
    rows.map_values(|row: Vec<Option<String>>| texts_view(row@))
}

impl View for SheetContent {
    type V = SheetContentView;

    open spec fn view(&self) -> SheetContentView {
        SheetContentView {
            name: self.name@,
            values: values_view(self.values@),
            formulas: formula_rows_view(self.formulas@),
        }
    }
}

/// For each value of a sheet the formula at the value's place in its row and
/// column.
pub open spec fn placed_formulas(
    values: Seq<Seq<SheetValueView>>,
    formulas: Option<FormulaMap>,
) -> Seq<Seq<Option<Seq<char>>>> {
    Seq::new(
        values.len(),
        |row: int|
            Seq::new(values[row].len(), |col: int| formula_at_spec(formulas, row, col)),
    )
}

/// What the workbook that some bytes are holds of a sheet.
pub open spec fn sheet_content(bytes: Seq<u8>, name: Seq<char>) -> Result<
    SheetContentView,
    XlsxErrorView,
> {
    match xlsx_values(bytes, name) {
        Err(message) => Err(XlsxErrorView::UnreadableSheet(name, message)),
        Ok(values) => Ok(
            SheetContentView {
                name,
                values,
                formulas: placed_formulas(values, xlsx_formulas(bytes, name)),
            },
        ),
    }
}

/// What the workbook that some bytes are holds of the sheets of the given names,
/// or the first error.
pub open spec fn sheet_contents(bytes: Seq<u8>, names: Seq<Seq<char>>) -> Result<
    Seq<SheetContentView>,
    XlsxErrorView,
>
    decreases names.len(),
{
    if names.len() == 0 {
        Ok(Seq::empty())
    } else {
        match (sheet_contents(bytes, names.drop_last()), sheet_content(bytes, names.last())) {
            (Err(error), _) => Err(error),
            (_, Err(error)) => Err(error),
            (Ok(earlier), Ok(content)) => Ok(earlier.push(content)),
        }
    }
}

/// What the workbook that some bytes are holds. A compound file whose sectors lead astray
/// and a package whose numbers do not fit are not read.
pub open spec fn workbook_contents(bytes: Seq<u8>) -> Result<
    Seq<SheetContentView>,
    XlsxErrorView,
> {
    if !can_be_followed(bytes) {
        Err(XlsxErrorView::Compound)
    } else if !package_fits(bytes) {
        Err(XlsxErrorView::OutOfBounds)
    } else {
        match xlsx_open_error(bytes) {
            Some(message) => Err(XlsxErrorView::Workbook(message)),
            None => if xlsx_sheet_names(bytes).len() == 0 {
                Err(XlsxErrorView::NoSheets)
            } else {
                sheet_contents(bytes, xlsx_sheet_names(bytes))
            },
        }
    }
}

/// An error in a part of the sheets is the error of them all.
proof fn lemma_sheet_contents_error(bytes: Seq<u8>, names: Seq<Seq<char>>, length: int)
    requires
        0 <= length <= names.len(),
        sheet_contents(bytes, names.take(length)) is Err,
    ensures
        sheet_contents(bytes, names) == sheet_contents(bytes, names.take(length)),
    decreases names.len() - length,
{
    if length == names.len() {
        assert(names.take(length) == names);
    } else {
        assert(names.take(length + 1).drop_last() == names.take(length));
        lemma_sheet_contents_error(bytes, names, length + 1);
    }
}

/// Looks the formulas of a sheet's cells up.
fn place_formulas(
    values: &Vec<Vec<SheetValue>>,
    formulas: &Option<calamine::Range<String>>,
) -> (rows: Vec<Vec<Option<String>>>)
    ensures
        formula_rows_view(rows@) == placed_formulas(values_view(values@), formulas_of(*formulas)),
{
    let ghost expected = placed_formulas(values_view(values@), formulas_of(*formulas));
    let mut rows: Vec<Vec<Option<String>>> = Vec::new();
    let mut row: usize = 0;
    while row < values.len()
        invariant
            row <= values@.len(),
            rows@.len() == row,
            expected == placed_formulas(values_view(values@), formulas_of(*formulas)),
            forall|r: int|
                0 <= r < row ==> #[trigger] texts_view(rows@[r]@) == expected[r],
        decreases values@.len() - row,
    {
        let mut cells: Vec<Option<String>> = Vec::new();
        let mut col: usize = 0;
        while col < values[row].len()
            invariant
                row < values@.len(),
                col <= values@[row as int]@.len(),
                cells@.len() == col,
                forall|c: int|
                    0 <= c < col ==> #[trigger] text_view(cells@[c]) == formula_at_spec(
                        formulas_of(*formulas),
                        row as int,
                        c,
                    ),
            decreases values@[row as int]@.len() - col,
        {
            cells.push(formula_at(formulas, row, col));
            col += 1;
        }
        assert(texts_view(cells@) =~= expected[row as int]);
        rows.push(cells);
        row += 1;
    }
    assert(formula_rows_view(rows@) =~= expected);
    rows
}

/// The content of a list of sheets.
pub open spec fn contents_view(contents: Seq<SheetContent>) -> Seq<SheetContentView> {
    contents.map_values(|content: SheetContent| content@)
}

/// Reads the values and formulas of all sheets of the workbook that some bytes
/// are.
pub fn read_contents(bytes: Vec<u8>) -> (contents: Result<Vec<SheetContent>, XlsxError>)
    ensures
        match contents {
            Ok(contents) => workbook_contents(bytes@) == Ok::<_, XlsxErrorView>(
                contents_view(contents@),
            ),
            Err(error) => workbook_contents(bytes@) == Err::<Seq<SheetContentView>, _>(error@),
        },
{
    let ghost source = bytes@;
    if !follows_sectors(&bytes) {
        return Err(XlsxError::Compound);
    }
    if !fits_package(bytes.clone()) {
        return Err(XlsxError::OutOfBounds);
    }
    let mut workbook = match open_workbook(bytes) {
        Err(message) => {
            return Err(XlsxError::Workbook(message));
        },
        Ok(workbook) => workbook,
    };
    let names = sheet_names(&workbook);
    let ghost views = names@.map_values(|name: String| name@);
    if names.len() == 0 {
        assert(views.len() == 0);
        return Err(XlsxError::NoSheets);
    }
    let mut contents: Vec<SheetContent> = Vec::new();
    assert(contents_view(contents@) == Seq::<SheetContentView>::empty());
    let mut index: usize = 0;
    while index < names.len()
        invariant
            index <= names@.len(),
            views == names@.map_values(|name: String| name@),
            source == bytes@,
            package_fits(source),
            workbook_bytes(&workbook) == source,
            workbook_contents(source) == sheet_contents(source, views),
            sheet_contents(source, views.take(index as int)) == Ok::<_, XlsxErrorView>(
                contents_view(contents@),
            ),
        decreases names@.len() - index,
    {
        proof {
            let longer = views.take(index + 1);
            assert(longer.drop_last() == views.take(index as int));
            if sheet_contents(source, longer) is Err {
                lemma_sheet_contents_error(source, views, index + 1);
            }
        }
        let name = names[index].clone();
        let values = match worksheet_range(&mut workbook, name.as_str()) {
            Err(message) => {
                return Err(XlsxError::UnreadableSheet(name, message));
            },
            Ok(range) => range_rows(&range),
        };
        let range = worksheet_formula(&mut workbook, name.as_str());
        let formulas = place_formulas(&values, &range);
        let content = SheetContent { name, values, formulas };
        let ghost before = contents@;
        contents.push(content);
        assert(contents_view(contents@) == contents_view(before).push(content@));
        index += 1;
    }
    assert(views.take(index as int) == views);
    Ok(contents)
}

/// A formula stands at the cell that the file gives it to; an empty one is none.
pub proof fn formulas_stand_at_their_cells(
    values: Seq<Seq<SheetValueView>>,
    formulas: FormulaMap,
    row: u32,
    col: u32,
)
    requires
        row < values.len(),
        col < values[row as int].len(),
    ensures
        placed_formulas(values, Some(formulas)).len() == values.len(),
        placed_formulas(values, Some(formulas))[row as int].len() == values[row as int].len(),
        formulas.contains_key((row, col)) && formulas[(row, col)] != Seq::<char>::empty()
            ==> placed_formulas(values, Some(formulas))[row as int][col as int] == Some(
            formulas[(row, col)],
        ),
        !formulas.contains_key((row, col)) || formulas[(row, col)] == Seq::<char>::empty()
            ==> placed_formulas(values, Some(formulas))[row as int][col as int] is None,
        placed_formulas(values, None)[row as int][col as int] is None,
{
    if formulas.contains_key((row, col)) && formulas[(row, col)].len() == 0 {
        assert(formulas[(row, col)] =~= Seq::<char>::empty());
    }
}

/// Sheets keep their order: the contents at an index are those of the name at that index, with
/// the values as the file holds them. One sheet that cannot be read fails them all.
pub proof fn sheets_keep_their_order(bytes: Seq<u8>, names: Seq<Seq<char>>, index: int)
    requires
        0 <= index < names.len(),
    ensures
        sheet_contents(bytes, names) is Ok ==> sheet_contents(bytes, names)->Ok_0.len()
            == names.len() && sheet_contents(bytes, names)->Ok_0[index].name == names[index]
            && xlsx_values(bytes, names[index]) == Ok::<Seq<Seq<SheetValueView>>, Seq<char>>(
            sheet_contents(bytes, names)->Ok_0[index].values,
        ) && sheet_contents(bytes, names)->Ok_0[index].formulas == placed_formulas(
            sheet_contents(bytes, names)->Ok_0[index].values,
            xlsx_formulas(bytes, names[index]),
        ),
        xlsx_values(bytes, names[index]) is Err ==> sheet_contents(bytes, names) is Err,
    decreases names.len(),
{
    if index < names.len() - 1 {
        sheets_keep_their_order(bytes, names.drop_last(), index);
        assert(names.drop_last()[index] == names[index]);
    } else {
        lemma_contents_length(bytes, names.drop_last());
        assert(names.last() == names[index]);
    }
}

proof fn lemma_contents_length(bytes: Seq<u8>, names: Seq<Seq<char>>)
    ensures
        sheet_contents(bytes, names) is Ok ==> sheet_contents(bytes, names)->Ok_0.len()
            == names.len(),
    decreases names.len(),
{
    if names.len() > 0 {
        lemma_contents_length(bytes, names.drop_last());
    }
}

} // verus!
