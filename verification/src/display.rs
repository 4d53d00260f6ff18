//! How the values of XLSX cells become cells of a sheet.

use vstd::prelude::*;

use crate::cell::{
    cell_rows_view, cells_view, copy_text, text_view, CellData, CellRawValue, CellView,
};
use crate::export::{lemma_pieces_append, lemma_pieces_single};
use crate::formats::{number_display, CellDisplayFormat, NumberLayout, NumberText};
use crate::grid::{
    values_view, DateTimeParts, SheetContent, SheetContentView, SheetValue, SheetValueView,
};
use crate::lines::pieces;
use crate::metadata::{style_at, SheetMetadata, SheetMetadataView};
use crate::numbers::{
    all_digits, decimal, decimal_text_reads_back, digits_denote_their_number, digits_of,
    digits_value, is_digit_of, padding_keeps_the_number, parsed_number, push_padded_decimal,
    signed_decimal, signed_decimal_text, zero_padded,
};
use crate::range::CellCoord;
use crate::styles::XlsxCellStyle;

verus! {

/// A number of a sheet.
#[derive(Debug, Clone, Copy, PartialEq, Eq, Structural)]
pub enum SheetNumber {
    Int(i64),
    /// By the bit pattern of the double-precision representation.
    Float(u64),
}

/// A number that has to be written out before its cell can be displayed.
#[derive(Debug, Clone, Copy, PartialEq, Eq, Structural)]
pub struct NumberRequest {
    pub number: SheetNumber,
    pub layout: NumberLayout,
}

/// A number written out as a [`NumberRequest`] asks.
pub struct WrittenNumber {
    /// The bit pattern of the number's double-precision representation.
    pub bits: u64,
    pub text: NumberText,
}

/// The mathematical content of a [`WrittenNumber`].
#[verifier::ext_equal]
pub struct WrittenNumberView {
    pub bits: u64,
    pub negative: bool,
    pub digits: Seq<char>,
}

impl View for WrittenNumber {
    type V = WrittenNumberView;

    open spec fn view(&self) -> WrittenNumberView {
        WrittenNumberView {
            bits: self.bits,
            negative: self.text.negative,
            digits: self.text.digits@,
        }
    }
}

/// The layout that a display format needs of a number's digits.
pub open spec fn layout_of(format: Option<CellDisplayFormat>) -> NumberLayout {
    match format {
        Some(format) => format.layout_spec(),
        None => NumberLayout::Plain,
    }
}

/// The number that has to be written out to display a value.
pub open spec fn number_request_of(
    value: SheetValueView,
    format: Option<CellDisplayFormat>,
) -> Option<NumberRequest> {
    match value {
        SheetValueView::Int(value) => Some(
            NumberRequest { number: SheetNumber::Int(value), layout: layout_of(format) },
        ),
        SheetValueView::Float(bits) => Some(
            NumberRequest { number: SheetNumber::Float(bits), layout: layout_of(format) },
        ),
        _ => None,
    }
}

/// The number that has to be written out to display a value.
pub fn number_request(value: &SheetValue, format: Option<CellDisplayFormat>) -> (request: Option<
    NumberRequest,
>)
    ensures
        request == number_request_of(value@, format),
{
    let layout = match format {
        Some(format) => format.layout(),
        None => NumberLayout::Plain,
    };
    match value {
        SheetValue::Int(value) => Some(NumberRequest { number: SheetNumber::Int(*value), layout }),
        SheetValue::Float(bits) => Some(
            NumberRequest { number: SheetNumber::Float(*bits), layout },
        ),
        _ => None,
    }
}

/// What kind of value a cell holds, given the double-precision representation of
/// an integer.
pub open spec fn raw_value_of(value: SheetValueView, number: WrittenNumberView) -> CellRawValue {
    match value {
        SheetValueView::Empty => CellRawValue::Empty,
        SheetValueView::Float(bits) => CellRawValue::Number { bits },
        SheetValueView::Int(_) => CellRawValue::Number { bits: number.bits },
        SheetValueView::Bool(value) => CellRawValue::Bool(value),
        SheetValueView::DateTime(_) => CellRawValue::DateTime,
        SheetValueView::IsoDateTime(_) => CellRawValue::DateTime,
        SheetValueView::IsoDuration(_) => CellRawValue::DateTime,
        SheetValueView::Text(_) => CellRawValue::Text,
        SheetValueView::Error(_) => CellRawValue::Text,
    }
}

/// What kind of value a cell holds.
pub fn raw_value(value: &SheetValue, number: &WrittenNumber) -> (raw: CellRawValue)
    ensures
        raw == raw_value_of(value@, number@),
{
    match value {
        SheetValue::Empty => CellRawValue::Empty,
        SheetValue::Float(bits) => CellRawValue::Number { bits: *bits },
        SheetValue::Int(_) => CellRawValue::Number { bits: number.bits },
        SheetValue::Bool(value) => CellRawValue::Bool(*value),
        SheetValue::DateTime(_) => CellRawValue::DateTime,
        SheetValue::IsoDateTime(_) => CellRawValue::DateTime,
        SheetValue::IsoDuration(_) => CellRawValue::DateTime,
        SheetValue::Text(_) => CellRawValue::Text,
        SheetValue::Error(_) => CellRawValue::Text,
    }
}

/// A number in at least `width` decimal digits.
pub open spec fn padded(number: nat, width: nat) -> Seq<char> {
    zero_padded(decimal(number), width)
}

/// A point in time in ISO 8601 notation; a time of day that is midnight is left
/// out, as are milliseconds that are zero.
pub open spec fn date_time_text(parts: DateTimeParts) -> Seq<char> {
    let (year, month, day, hour, minute, second, milli) = parts;
    let date = padded(year as nat, 4) + seq!['-'] + padded(month as nat, 2) + seq!['-'] + padded(
        day as nat,
        2,
    );
    let time = seq!['T'] + padded(hour as nat, 2) + seq![':'] + padded(minute as nat, 2)
        + seq![':'] + padded(second as nat, 2);
    if hour == 0 && minute == 0 && second == 0 && milli == 0 {
        date
    } else if milli == 0 {
        date + time
    } else {
        date + time + seq!['.'] + padded(milli as nat, 3)
    }
}

/// Writes a point in time.
pub fn display_excel_datetime(parts: DateTimeParts) -> (text: String)
    ensures
        text@ == date_time_text(parts),
{
    let (year, month, day, hour, minute, second, milli) = parts;
    let mut text = String::new();
    push_padded_decimal(&mut text, year as u64, 4);
    text.push('-');
    push_padded_decimal(&mut text, month as u64, 2);
    text.push('-');
    push_padded_decimal(&mut text, day as u64, 2);
    let ghost date = text@;
    if hour == 0 && minute == 0 && second == 0 && milli == 0 {
        return text;
    }
    text.push('T');
    push_padded_decimal(&mut text, hour as u64, 2);
    text.push(':');
    push_padded_decimal(&mut text, minute as u64, 2);
    text.push(':');
    push_padded_decimal(&mut text, second as u64, 2);
    assert(text@ =~= date + (seq!['T'] + padded(hour as nat, 2) + seq![':'] + padded(
        minute as nat,
        2,
    ) + seq![':'] + padded(second as nat, 2)));
    if milli != 0 {
        text.push('.');
        push_padded_decimal(&mut text, milli as u64, 3);
    }
    text
}

/// The point in time that a text in ISO 8601 notation says, as year, month, day, hour,
/// minute, second and millisecond. What is left out of the time of day is zero.
pub open spec fn moment_of(text: Seq<char>) -> (nat, nat, nat, nat, nat, nat, nat) {
    let halves = pieces(text, 'T');
    let date = pieces(halves[0], '-');
    let clock = pieces(halves[1], '.');
    let time = pieces(clock[0], ':');
    (
        digits_value(date[0], 10),
        digits_value(date[1], 10),
        digits_value(date[2], 10),
        if halves.len() == 1 {
            0
        } else {
            digits_value(time[0], 10)
        },
        if halves.len() == 1 {
            0
        } else {
            digits_value(time[1], 10)
        },
        if halves.len() == 1 {
            0
        } else {
            digits_value(time[2], 10)
        },
        if halves.len() == 1 || clock.len() == 1 {
            0
        } else {
            digits_value(clock[1], 10)
        },
    )
}

/// A padded number is digits only and denotes the number.
proof fn lemma_padded(number: nat, width: nat)
    ensures
        digits_value(padded(number, width), 10) == number,
        all_digits(padded(number, width), 10),
        padded(number, width).len() >= width,
        forall|ch: char|
            !is_digit_of(ch, 10) ==> !(#[trigger] padded(number, width).contains(ch)),
{
    digits_denote_their_number(number, 10);
    padding_keeps_the_number(decimal(number), width, 10);
    assert forall|ch: char| !is_digit_of(ch, 10) implies !(#[trigger] padded(
        number,
        width,
    ).contains(ch)) by {
        let digits = padded(number, width);
        if digits.contains(ch) {
            let i = choose|i: int| 0 <= i < digits.len() && digits[i] == ch;
            assert(is_digit_of(digits[i], 10));
        }
    }
}

/// Three texts with separators between them are split at these again.
proof fn lemma_three_pieces(
    first: Seq<char>,
    second: Seq<char>,
    third: Seq<char>,
    separator: char,
)
    requires
        !first.contains(separator),
        !second.contains(separator),
        !third.contains(separator),
    ensures
        pieces(first + seq![separator] + second + seq![separator] + third, separator) == seq![
            first,
            second,
            third,
        ],
{
    lemma_pieces_single(first, separator);
    lemma_pieces_append(first, separator, second);
    lemma_pieces_append(first + seq![separator] + second, separator, third);
    assert(seq![first].push(second).push(third) == seq![first, second, third]);
}

/// A text of three parts and separators holds no other character than these.
proof fn lemma_three_avoid(
    first: Seq<char>,
    second: Seq<char>,
    third: Seq<char>,
    separator: char,
    avoided: char,
)
    requires
        !first.contains(avoided),
        !second.contains(avoided),
        !third.contains(avoided),
        separator != avoided,
    ensures
        !(first + seq![separator] + second + seq![separator] + third).contains(avoided),
{
    let whole = first + seq![separator] + second + seq![separator] + third;
    assert forall|i: int| 0 <= i < whole.len() implies whole[i] != avoided by {
        let behind = first.len() + 1 + second.len();
        if i < first.len() {
            assert(first.contains(first[i]));
        } else if first.len() < i < behind {
            assert(second.contains(second[i - first.len() - 1]));
        } else if i > behind {
            assert(third.contains(third[i - behind - 1]));
        }
    }
}

/// A point in time reads back from its text: the text says the year, the month, the day,
/// the hour, the minute, the second and the millisecond, and it is a date alone exactly at
/// midnight.
pub proof fn displayed_moments_read_back(parts: DateTimeParts)
    ensures
        moment_of(date_time_text(parts)) == (
            parts.0 as nat,
            parts.1 as nat,
            parts.2 as nat,
            parts.3 as nat,
            parts.4 as nat,
            parts.5 as nat,
            parts.6 as nat,
        ),
        date_time_text(parts).contains('T') <==> !(parts.3 == 0 && parts.4 == 0 && parts.5 == 0
            && parts.6 == 0),
        date_time_text(parts).contains('.') <==> parts.6 != 0,
{
    let (year, month, day, hour, minute, second, milli) = parts;
    let text = date_time_text(parts);
    let y = padded(year as nat, 4);
    let m = padded(month as nat, 2);
    let d = padded(day as nat, 2);
    let h = padded(hour as nat, 2);
    let n = padded(minute as nat, 2);
    let s = padded(second as nat, 2);
    let f = padded(milli as nat, 3);
    lemma_padded(year as nat, 4);
    lemma_padded(month as nat, 2);
    lemma_padded(day as nat, 2);
    lemma_padded(hour as nat, 2);
    lemma_padded(minute as nat, 2);
    lemma_padded(second as nat, 2);
    lemma_padded(milli as nat, 3);
    let date = y + seq!['-'] + m + seq!['-'] + d;
    let time = h + seq![':'] + n + seq![':'] + s;
    lemma_three_pieces(y, m, d, '-');
    lemma_three_avoid(y, m, d, '-', 'T');
    lemma_three_avoid(y, m, d, '-', '.');
    lemma_three_pieces(h, n, s, ':');
    lemma_three_avoid(h, n, s, ':', 'T');
    lemma_three_avoid(h, n, s, ':', '.');
    lemma_pieces_single(date, 'T');
    if hour == 0 && minute == 0 && second == 0 && milli == 0 {
        assert(text == date);
    } else {
        let clock = if milli == 0 {
            time
        } else {
            time + seq!['.'] + f
        };
        assert(text =~= date + seq!['T'] + clock);
        assert(text[date.len() as int] == 'T');
        assert forall|i: int| 0 <= i < clock.len() implies clock[i] != 'T' by {
            if i < time.len() {
                assert(time.contains(time[i]));
            } else if i > time.len() {
                assert(f.contains(f[i - time.len() - 1]));
            }
        }
        lemma_pieces_append(date, 'T', clock);
        lemma_pieces_single(time, '.');
        if milli == 0 {
            assert forall|i: int| 0 <= i < text.len() implies text[i] != '.' by {
                if i < date.len() {
                    assert(date.contains(date[i]));
                } else if i > date.len() {
                    assert(time.contains(time[i - date.len() - 1]));
                }
            }
        } else {
            lemma_pieces_append(time, '.', f);
            assert(text[(date + seq!['T'] + time).len() as int] == '.');
        }
    }
}

/// Two points in time have the same text only if they are the same.
pub proof fn different_moments_have_different_texts(left: DateTimeParts, right: DateTimeParts)
    requires
        date_time_text(left) == date_time_text(right),
    ensures
        left == right,
{
    displayed_moments_read_back(left);
    displayed_moments_read_back(right);
}

/// The text of a truth value.
pub open spec fn bool_text(value: bool) -> Seq<char> {
    if value {
        "true"@
    } else {
        "false"@
    }
}

/// The text that a value is displayed by.
pub open spec fn display_text(
    value: SheetValueView,
    format: Option<CellDisplayFormat>,
    number: WrittenNumberView,
) -> Seq<char> {
    match (value, format) {
        (SheetValueView::Empty, _) => Seq::empty(),
        (SheetValueView::DateTime(parts), _) => date_time_text(parts),
        (SheetValueView::Float(_), None) => number.digits,
        (SheetValueView::Int(value), None) => signed_decimal(value as int),
        (SheetValueView::Float(_), Some(format)) => number_display(
            format,
            number.negative,
            number.digits,
        ),
        (SheetValueView::Int(_), Some(format)) => number_display(
            format,
            number.negative,
            number.digits,
        ),
        (SheetValueView::Bool(value), _) => bool_text(value),
        (SheetValueView::Text(text), _) => text,
        (SheetValueView::IsoDateTime(text), _) => text,
        (SheetValueView::IsoDuration(text), _) => text,
        (SheetValueView::Error(text), _) => text,
    }
}

/// The text that a value is displayed by. A number has to be written out as
/// [`number_request`] asks.
pub fn display_cell(
    value: &SheetValue,
    format: Option<CellDisplayFormat>,
    number: &WrittenNumber,
) -> (text: String)
    ensures
        text@ == display_text(value@, format, number@),
{
    match value {
        SheetValue::Empty => String::new(),
        SheetValue::DateTime(parts) => display_excel_datetime(*parts),
        SheetValue::Float(_) => match format {
            None => number.text.digits.clone(),
            Some(format) => format.format_number(&number.text),
        },
        SheetValue::Int(value) => match format {
            None => signed_decimal_text(*value),
            Some(format) => format.format_number(&number.text),
        },
        SheetValue::Bool(value) => if *value {
            "true".to_owned()
        } else {
            "false".to_owned()
        },
        SheetValue::Text(text) => text.clone(),
        SheetValue::IsoDateTime(text) => text.clone(),
        SheetValue::IsoDuration(text) => text.clone(),
        SheetValue::Error(text) => text.clone(),
    }
}

/// A cell made of a value, a style, a formula and the value's written number.
pub open spec fn cell_of(
    value: SheetValueView,
    style: XlsxCellStyle,
    formula: Option<Seq<char>>,
    number: WrittenNumberView,
) -> CellView {
    let text = display_text(value, style.display_format, number);
    CellView {
        value: text,
        formula,
        raw_value: raw_value_of(value, number),
        style: style.visual_style,
        display_format: style.display_format,
        formula_value_was_uncached: text.len() == 0 && formula is Some && formula->0.len() > 0,
    }
}

/// Makes a cell of a value, a style, a formula and the value's written number.
pub fn make_cell(
    value: &SheetValue,
    style: XlsxCellStyle,
    formula: &Option<String>,
    number: &WrittenNumber,
) -> (cell: CellData)
    ensures
        cell@ == cell_of(value@, style, text_view(*formula), number@),
{
    let text = display_cell(value, style.display_format, number);
    let has_formula = match formula {
        Some(formula) => !formula.as_str().is_empty(),
        None => false,
    };
    let formula_value_was_uncached = text.as_str().is_empty() && has_formula;
    CellData {
        value: text,
        formula: copy_text(formula),
        raw_value: raw_value(value, number),
        style: style.visual_style,
        display_format: style.display_format,
        formula_value_was_uncached,
    }
}

proof fn lemma_decimal_length(number: nat)
    ensures
        number < 100 ==> decimal(number).len() <= 2,
        number < 1000 ==> decimal(number).len() <= 3,
        number < 10000 ==> decimal(number).len() <= 4,
{
    reveal_with_fuel(digits_of, 5);
}

/// A date of the calendar takes ten characters, with a time of day nineteen, and with
/// milliseconds twenty-three: the separators are always at the same places.
pub proof fn displayed_dates_have_one_shape(parts: DateTimeParts)
    requires
        parts.0 <= 9999,
        parts.1 <= 99,
        parts.2 <= 99,
        parts.3 <= 99,
        parts.4 <= 99,
        parts.5 <= 99,
        parts.6 <= 999,
    ensures
        ({
            let text = date_time_text(parts);
            &&& text.len() == 10 || text.len() == 19 || text.len() == 23
            &&& text.len() == 10 <==> parts.3 == 0 && parts.4 == 0 && parts.5 == 0 && parts.6 == 0
            &&& text.len() == 23 <==> parts.6 != 0
            &&& text[4] == '-' && text[7] == '-'
            &&& text.len() >= 19 ==> text[10] == 'T' && text[13] == ':' && text[16] == ':'
            &&& text.len() == 23 ==> text[19] == '.'
        }),
{
    lemma_decimal_length(parts.0 as nat);
    lemma_decimal_length(parts.1 as nat);
    lemma_decimal_length(parts.2 as nat);
    lemma_decimal_length(parts.3 as nat);
    lemma_decimal_length(parts.4 as nat);
    lemma_decimal_length(parts.5 as nat);
    lemma_decimal_length(parts.6 as nat);
    lemma_padded(parts.0 as nat, 4);
    lemma_padded(parts.1 as nat, 2);
    lemma_padded(parts.2 as nat, 2);
    lemma_padded(parts.3 as nat, 2);
    lemma_padded(parts.4 as nat, 2);
    lemma_padded(parts.5 as nat, 2);
    lemma_padded(parts.6 as nat, 3);
}

/// A cell of a file displays what the file holds: a date by a text that reads back as the
/// date, a text as it is, a truth value by its word, a whole number without a format by its
/// digits, a number in its format, and nothing by nothing. It keeps its formula, its style
/// and its format.
pub proof fn cells_display_what_the_file_holds(
    value: SheetValueView,
    style: XlsxCellStyle,
    formula: Option<Seq<char>>,
    written: WrittenNumberView,
)
    ensures
        ({
            let cell = cell_of(value, style, formula, written);
            &&& cell.formula == formula
            &&& cell.style == style.visual_style
            &&& cell.display_format == style.display_format
            &&& cell.formula_value_was_uncached <==> cell.value.len() == 0 && formula is Some
                && formula->0.len() > 0
            &&& value matches SheetValueView::DateTime(parts) ==> moment_of(cell.value) == (
                parts.0 as nat,
                parts.1 as nat,
                parts.2 as nat,
                parts.3 as nat,
                parts.4 as nat,
                parts.5 as nat,
                parts.6 as nat,
            ) && cell.raw_value == CellRawValue::DateTime
            &&& value matches SheetValueView::Text(text) ==> cell.value == text && cell.raw_value
                == CellRawValue::Text
            &&& value matches SheetValueView::Error(text) ==> cell.value == text && cell.raw_value
                == CellRawValue::Text
            &&& value matches SheetValueView::IsoDateTime(text) ==> cell.value == text
                && cell.raw_value == CellRawValue::DateTime
            &&& value matches SheetValueView::IsoDuration(text) ==> cell.value == text
                && cell.raw_value == CellRawValue::DateTime
            &&& value matches SheetValueView::Bool(truth) ==> (if truth {
                cell.value == "true"@
            } else {
                cell.value == "false"@
            }) && cell.raw_value == CellRawValue::Bool(truth)
            &&& value is Empty ==> cell.value == Seq::<char>::empty() && cell.raw_value
                == CellRawValue::Empty
            &&& value matches SheetValueView::Float(bits) ==> cell.raw_value
                == CellRawValue::Number { bits }
            &&& value is Int ==> cell.raw_value == CellRawValue::Number { bits: written.bits }
            &&& value is Float && style.display_format is None ==> cell.value == written.digits
            &&& value matches SheetValueView::Int(whole) ==> (style.display_format is None
                ==> parsed_number(
                if whole < 0 {
                    cell.value.skip(1)
                } else {
                    cell.value
                },
                10,
            ) == Some(
                if whole < 0 {
                    -whole
                } else {
                    whole as int
                } as nat,
            ) && (whole < 0 <==> cell.value[0] == '-'))
            &&& (value is Int || value is Float) && (style.display_format matches Some(
                CellDisplayFormat::Percentage { .. },
            )) ==> cell.value == written.digits.push('%')
            &&& (value is Int || value is Float) ==> (style.display_format matches Some(
                CellDisplayFormat::Currency { decimals },
            ) ==> cell.value == number_display(
                CellDisplayFormat::Currency { decimals },
                written.negative,
                written.digits,
            ))
        }),
{
    let cell = cell_of(value, style, formula, written);
    match value {
        SheetValueView::DateTime(parts) => {
            displayed_moments_read_back(parts);
        },
        SheetValueView::Int(whole) => {
            let magnitude: nat = if whole < 0 {
                (-whole) as nat
            } else {
                whole as nat
            };
            decimal_text_reads_back(magnitude);
            digits_denote_their_number(magnitude, 10);
            assert(is_digit_of(decimal(magnitude)[0], 10));
            assert((seq!['-'] + decimal(magnitude)).skip(1) =~= decimal(magnitude));
        },
        _ => {},
    }
    if value is Int || value is Float {
        if let Some(CellDisplayFormat::Percentage { decimals }) = style.display_format {
            assert(cell.value =~= written.digits.push('%'));
        }
    }
}

/// The digits of a number are asked for in the layout of the format: a percentage with a
/// hundred times the number, a dollar amount with the magnitude, both with as many decimals
/// as the format has, and a number without a format as it is. Nothing is asked for what is
/// no number.
pub proof fn digits_are_asked_for_as_displayed(
    value: SheetValueView,
    decimals: usize,
    format: Option<CellDisplayFormat>,
)
    ensures
        number_request_of(value, format) is Some <==> value is Int || value is Float,
        number_request_of(value, format) matches Some(request) ==> (value matches SheetValueView::Int(
            whole,
        ) ==> request.number == SheetNumber::Int(whole)),
        number_request_of(value, format) matches Some(request) ==> (
        value matches SheetValueView::Float(bits) ==> request.number == SheetNumber::Float(bits)),
        number_request_of(value, Some(CellDisplayFormat::Percentage { decimals })) matches Some(
            request,
        ) ==> request.layout == (NumberLayout::Percent { decimals }),
        number_request_of(value, Some(CellDisplayFormat::Currency { decimals })) matches Some(
            request,
        ) ==> request.layout == (NumberLayout::Fixed { decimals }),
        number_request_of(value, None) matches Some(request) ==> request.layout
            == NumberLayout::Plain,
{
}

/// The cell in a row and a column of a sheet is made of the value, the formula and the
/// number of that row and column, in the style that the sheet gives that place.
pub proof fn cells_stay_in_their_places(
    content: SheetContentView,
    metadata: SheetMetadataView,
    numbers: Seq<Seq<WrittenNumberView>>,
    row: int,
    col: int,
)
    requires
        0 <= row < content.values.len(),
        0 <= col < content.values[row].len(),
    ensures
        sheet_cells(content, metadata, numbers).len() == content.values.len(),
        sheet_cells(content, metadata, numbers)[row].len() == content.values[row].len(),
        ({
            let cell = sheet_cells(content, metadata, numbers)[row][col];
            let style = style_at(
                metadata.cell_styles,
                CellCoord { row: row as usize, col: col as usize },
            );
            &&& cell.formula == content.formulas[row][col]
            &&& cell.style == style.visual_style
            &&& cell.display_format == style.display_format
            &&& cell == cell_of(
                content.values[row][col],
                style,
                content.formulas[row][col],
                numbers[row][col],
            )
        }),
        sheet_requests(content.values, metadata)[row][col] == number_request_of(
            content.values[row][col],
            style_at(
                metadata.cell_styles,
                CellCoord { row: row as usize, col: col as usize },
            ).display_format,
        ),
{
}

/// The numbers of a sheet that have to be written out, by row and column.
pub open spec fn sheet_requests(
    values: Seq<Seq<SheetValueView>>,
    metadata: SheetMetadataView,
) -> Seq<Seq<Option<NumberRequest>>> {
    Seq::new(
        values.len(),
        |row: int|
            Seq::new(
                values[row].len(),
                |col: int|
                    number_request_of(
                        values[row][col],
                        style_at(
                            metadata.cell_styles,
                            CellCoord { row: row as usize, col: col as usize },
                        ).display_format,
                    ),
            ),
    )
}

/// The content of rows of requests.
pub open spec fn request_rows_view(rows: Seq<Vec<Option<NumberRequest>>>) -> Seq<
    Seq<Option<NumberRequest>>,
> {
    rows.map_values(|row: Vec<Option<NumberRequest>>| row@)
}

/// Lists the numbers of a sheet that have to be written out, by row and column.
pub fn number_requests(values: &Vec<Vec<SheetValue>>, metadata: &SheetMetadata) -> (requests: Vec<
    Vec<Option<NumberRequest>>,
>)
    ensures
        request_rows_view(requests@) == sheet_requests(values_view(values@), metadata@),
{
    let ghost expected = sheet_requests(values_view(values@), metadata@);
    let mut requests: Vec<Vec<Option<NumberRequest>>> = Vec::new();
    let mut row: usize = 0;
    while row < values.len()
        invariant
            row <= values@.len(),
            requests@.len() == row,
            expected == sheet_requests(values_view(values@), metadata@),
            forall|r: int| 0 <= r < row ==> #[trigger] requests@[r]@ == expected[r],
        decreases values@.len() - row,
    {
        let mut cells: Vec<Option<NumberRequest>> = Vec::new();
        let mut col: usize = 0;
        while col < values[row].len()
            invariant
                row < values@.len(),
                col <= values@[row as int]@.len(),
                cells@.len() == col,
                expected == sheet_requests(values_view(values@), metadata@),
                forall|c: int| 0 <= c < col ==> cells@[c] == #[trigger] expected[row as int][c],
            decreases values@[row as int]@.len() - col,
        {
            let style = metadata.cell_style(row, col);
            cells.push(number_request(&values[row][col], style.display_format));
            col += 1;
        }
        assert(cells@ =~= expected[row as int]);
        requests.push(cells);
        row += 1;
    }
    assert(request_rows_view(requests@) =~= expected);
    requests
}

/// The content of rows of written numbers.
pub open spec fn written_rows_view(rows: Seq<Vec<WrittenNumber>>) -> Seq<Seq<WrittenNumberView>> {
    rows.map_values(
        |row: Vec<WrittenNumber>| row@.map_values(|number: WrittenNumber| number@),
    )
}

/// Whether there is one item for each value, row by row.
pub open spec fn same_shape<A, B>(left: Seq<Seq<A>>, right: Seq<Seq<B>>) -> bool {
    &&& left.len() == right.len()
    &&& forall|row: int| #![auto] 0 <= row < left.len() ==> left[row].len() == right[row].len()
}

/// The cells of a sheet: each value with the style and the formula of its place.
pub open spec fn sheet_cells(
    content: SheetContentView,
    metadata: SheetMetadataView,
    numbers: Seq<Seq<WrittenNumberView>>,
) -> Seq<Seq<CellView>> {
    Seq::new(
        content.values.len(),
        |row: int|
            Seq::new(
                content.values[row].len(),
                |col: int|
                    cell_of(
                        content.values[row][col],
                        style_at(
                            metadata.cell_styles,
                            CellCoord { row: row as usize, col: col as usize },
                        ),
                        content.formulas[row][col],
                        numbers[row][col],
                    ),
            ),
    )
}

/// Makes the cells of a sheet from what the file holds of it and the numbers
/// that were written out for it.
pub fn make_cells(
    content: &SheetContent,
    metadata: &SheetMetadata,
    numbers: &Vec<Vec<WrittenNumber>>,
) -> (rows: Vec<Vec<CellData>>)
    requires
        same_shape(content@.values, content@.formulas),
        same_shape(content@.values, written_rows_view(numbers@)),
    ensures
        cell_rows_view(rows@) == sheet_cells(content@, metadata@, written_rows_view(numbers@)),
{
    let ghost written = written_rows_view(numbers@);
    let ghost expected = sheet_cells(content@, metadata@, written);
    let values = &content.values;
    let mut rows: Vec<Vec<CellData>> = Vec::new();
    let mut row: usize = 0;
    while row < values.len()
        invariant
            row <= values@.len(),
            values@ == content.values@,
            rows@.len() == row,
            written == written_rows_view(numbers@),
            expected == sheet_cells(content@, metadata@, written),
            same_shape(content@.values, content@.formulas),
            same_shape(content@.values, written),
            forall|r: int|
                0 <= r < row ==> #[trigger] cells_view(rows@[r]@) == expected[r],
        decreases values@.len() - row,
    {
        let mut cells: Vec<CellData> = Vec::new();
        let mut col: usize = 0;
        assert(content@.values[row as int].len() == content@.formulas[row as int].len());
        assert(content@.values[row as int].len() == written[row as int].len());
        while col < values[row].len()
            invariant
                row < values@.len(),
                values@ == content.values@,
                col <= values@[row as int]@.len(),
                values@.len() == content.formulas@.len(),
                values@.len() == numbers@.len(),
                values@[row as int]@.len() == content.formulas@[row as int]@.len(),
                values@[row as int]@.len() == numbers@[row as int]@.len(),
                cells@.len() == col,
                written == written_rows_view(numbers@),
                expected == sheet_cells(content@, metadata@, written),
                forall|c: int| 0 <= c < col ==> cells@[c]@ == #[trigger] expected[row as int][c],
            decreases values@[row as int]@.len() - col,
        {
            let style = metadata.cell_style(row, col);
            let cell = make_cell(
                &values[row][col],
                style,
                &content.formulas[row][col],
                &numbers[row][col],
            );
            assert(content@.values[row as int][col as int] == values@[row as int]@[col as int]@);
            assert(content@.formulas[row as int][col as int] == text_view(
                content.formulas@[row as int]@[col as int],
            ));
            assert(written[row as int][col as int] == numbers@[row as int]@[col as int]@);
            cells.push(cell);
            col += 1;
        }
        assert(cells_view(cells@) =~= expected[row as int]);
        rows.push(cells);
        row += 1;
    }
    assert(cell_rows_view(rows@) =~= expected);
    rows
}

} // verus!
