//! Record batches: the values of a Parquet file as they come out of the reader.

use vstd::prelude::*;

use arrow_array::{
    Array, BooleanArray, Float32Array, Float64Array, Int16Array, Int32Array, Int64Array, Int8Array,
    RecordBatch, UInt16Array, UInt32Array, UInt64Array, UInt8Array,
};
use arrow_schema::DataType;

use crate::cell::{cells_view, empty_cell, CellData, CellRawValue, CellView};

verus! {

/// A record batch of `arrow_array`.
#[verifier::external_body]
pub struct Batch {
    pub records: RecordBatch,
}

/// What is known of a value besides its text.
#[derive(Debug, Clone, Copy, PartialEq, Eq, Structural)]
pub enum ArrowRaw {
    Signed(i64),
    Unsigned(u64),
    /// A number, by the bit pattern of its single-precision representation.
    Single(u32),
    /// A number, by the bit pattern of its double-precision representation.
    Double(u64),
    Bool(bool),
    /// A date, counted in days.
    Date32,
    /// A date, counted in milliseconds.
    Date64,
    /// A point in time.
    Timestamp,
    Other,
}

/// The mathematical content of a value.
#[verifier::ext_equal]
pub struct ArrowValueView {
    pub null: bool,
    /// The value as text, or why it has none.
    pub text: Result<Seq<char>, Seq<char>>,
    pub raw: ArrowRaw,
}

/// The values that a batch holds, row by row.
pub uninterp spec fn batch_rows(batch: &Batch) -> Seq<Seq<ArrowValueView>>;

/// Whether a batch has a value at a place.
pub open spec fn has_value(batch: &Batch, row: int, col: int) -> bool {
    0 <= row < batch_rows(batch).len() && 0 <= col < batch_rows(batch)[row].len()
}

/// `RecordBatch::num_rows`: how many rows there are.
#[verifier::external_body]
fn row_count(batch: &Batch) -> (count: usize)
    ensures
        count == batch_rows(batch).len(),
{
    batch.records.num_rows()
}

/// `RecordBatch::num_columns`: how many values every row has.
#[verifier::external_body]
fn column_count(batch: &Batch) -> (count: usize)
    ensures
        forall|row: int|
            0 <= row < batch_rows(batch).len() ==> (#[trigger] batch_rows(batch)[row]).len()
                == count,
{
    batch.records.num_columns()
}

/// `Array::is_null`: whether a value is null.
#[verifier::external_body]
fn is_null(batch: &Batch, row: usize, col: usize) -> (null: bool)
    requires
        has_value(batch, row as int, col as int),
    ensures
        null == batch_rows(batch)[row as int][col as int].null,
{
    batch.records.column(col).is_null(row)
}

/// `arrow_cast::display::array_value_to_string`: a value as text, in the default formats.
/// Dates and times beyond the calendar and unknown time zones are errors; durations beyond
/// what can be counted have a text of their own.
#[verifier::external_body]
fn value_text(batch: &Batch, row: usize, col: usize) -> (text: Result<String, String>)
    requires
        has_value(batch, row as int, col as int),
    ensures
        match text {
            Ok(text) => batch_rows(batch)[row as int][col as int].text == Ok::<_, Seq<char>>(text@),
            Err(message) => batch_rows(batch)[row as int][col as int].text == Err::<Seq<char>, _>(
                message@,
            ),
        },
{
    arrow_cast::display::array_value_to_string(batch.records.column(col), row).map_err(
        |error| error.to_string(),
    )
}

/// `PrimitiveArray::value` of the arrays of signed numbers: the number, where the
/// value is one.
#[verifier::external_body]
fn signed_value(batch: &Batch, row: usize, col: usize) -> (number: Option<i64>)
    requires
        has_value(batch, row as int, col as int),
    ensures
        match number {
            Some(number) => batch_rows(batch)[row as int][col as int].raw == ArrowRaw::Signed(
                number,
            ),
            None => !(batch_rows(batch)[row as int][col as int].raw is Signed),
        },
{
    let array = batch.records.column(col).as_any();
    match batch.records.column(col).data_type() {
        DataType::Int8 => array.downcast_ref::<Int8Array>().map(|array| array.value(row).into()),
        DataType::Int16 => array.downcast_ref::<Int16Array>().map(|array| array.value(row).into()),
        DataType::Int32 => array.downcast_ref::<Int32Array>().map(|array| array.value(row).into()),
        DataType::Int64 => array.downcast_ref::<Int64Array>().map(|array| array.value(row)),
        _ => None,
    }
}

/// `PrimitiveArray::value` of the arrays of unsigned numbers: the number, where
/// the value is one.
#[verifier::external_body]
fn unsigned_value(batch: &Batch, row: usize, col: usize) -> (number: Option<u64>)
    requires
        has_value(batch, row as int, col as int),
    ensures
        match number {
            Some(number) => batch_rows(batch)[row as int][col as int].raw == ArrowRaw::Unsigned(
                number,
            ),
            None => !(batch_rows(batch)[row as int][col as int].raw is Unsigned),
        },
{
    let array = batch.records.column(col).as_any();
    match batch.records.column(col).data_type() {
        DataType::UInt8 => array.downcast_ref::<UInt8Array>().map(|array| array.value(row).into()),
        DataType::UInt16 => array.downcast_ref::<UInt16Array>().map(
            |array| array.value(row).into(),
        ),
        DataType::UInt32 => array.downcast_ref::<UInt32Array>().map(
            |array| array.value(row).into(),
        ),
        DataType::UInt64 => array.downcast_ref::<UInt64Array>().map(|array| array.value(row)),
        _ => None,
    }
}

/// `PrimitiveArray::value` of the arrays of single-precision numbers: the bits of
/// the number, where the value is one.
#[verifier::external_body]
fn single_value(batch: &Batch, row: usize, col: usize) -> (bits: Option<u32>)
    requires
        has_value(batch, row as int, col as int),
    ensures
        match bits {
            Some(bits) => batch_rows(batch)[row as int][col as int].raw == ArrowRaw::Single(bits),
            None => !(batch_rows(batch)[row as int][col as int].raw is Single),
        },
{
    match batch.records.column(col).data_type() {
        DataType::Float32 => batch.records.column(col).as_any().downcast_ref::<Float32Array>().map(
            |array| array.value(row).to_bits(),
        ),
        _ => None,
    }
}

/// `PrimitiveArray::value` of the arrays of double-precision numbers: the bits of
/// the number, where the value is one.
#[verifier::external_body]
fn double_value(batch: &Batch, row: usize, col: usize) -> (bits: Option<u64>)
    requires
        has_value(batch, row as int, col as int),
    ensures
        match bits {
            Some(bits) => batch_rows(batch)[row as int][col as int].raw == ArrowRaw::Double(bits),
            None => !(batch_rows(batch)[row as int][col as int].raw is Double),
        },
{
    match batch.records.column(col).data_type() {
        DataType::Float64 => batch.records.column(col).as_any().downcast_ref::<Float64Array>().map(
            |array| array.value(row).to_bits(),
        ),
        _ => None,
    }
}

/// `BooleanArray::value`: the truth value, where the value is one.
#[verifier::external_body]
fn bool_value(batch: &Batch, row: usize, col: usize) -> (truth: Option<bool>)
    requires
        has_value(batch, row as int, col as int),
    ensures
        match truth {
            Some(truth) => batch_rows(batch)[row as int][col as int].raw == ArrowRaw::Bool(truth),
            None => !(batch_rows(batch)[row as int][col as int].raw is Bool),
        },
{
    match batch.records.column(col).data_type() {
        DataType::Boolean => batch.records.column(col).as_any().downcast_ref::<BooleanArray>().map(
            |array| array.value(row),
        ),
        _ => None,
    }
}

/// The kinds of dates and points in time.
#[derive(Debug, Clone, Copy, PartialEq, Eq, Structural)]
enum DateKind {
    Date32,
    Date64,
    Timestamp,
    Other,
}

/// `Array::data_type`: whether a value is a date or a point in time, and of which kind.
#[verifier::external_body]
fn date_kind(batch: &Batch, row: usize, col: usize) -> (kind: DateKind)
    requires
        has_value(batch, row as int, col as int),
    ensures
        match batch_rows(batch)[row as int][col as int].raw {
            ArrowRaw::Date32 => kind == DateKind::Date32,
            ArrowRaw::Date64 => kind == DateKind::Date64,
            ArrowRaw::Timestamp => kind == DateKind::Timestamp,
            _ => kind == DateKind::Other,
        },
{
    match batch.records.column(col).data_type() {
        DataType::Date32 => DateKind::Date32,
        DataType::Date64 => DateKind::Date64,
        DataType::Timestamp(_, _) => DateKind::Timestamp,
        _ => DateKind::Other,
    }
}

/// A value of a batch.
#[derive(Debug)]
pub struct ArrowValue {
    pub null: bool,
    /// The value as text, or why it has none.
    pub text: Result<String, String>,
    pub raw: ArrowRaw,
}

impl View for ArrowValue {
    type V = ArrowValueView;

    open spec fn view(&self) -> ArrowValueView {
        ArrowValueView {
            null: self.null,
            text: match self.text {
                Ok(text) => Ok(text@),
                Err(message) => Err(message@),
            },
            raw: self.raw,
        }
    }
}

/// The content of a list of values.
pub open spec fn arrow_values_view(values: Seq<ArrowValue>) -> Seq<ArrowValueView> {
    values.map_values(|value: ArrowValue| value@)
}

/// What is known of a value besides its text.
fn arrow_raw_value(batch: &Batch, row: usize, col: usize) -> (raw: ArrowRaw)
    requires
        has_value(batch, row as int, col as int),
    ensures
        raw == batch_rows(batch)[row as int][col as int].raw,
{
    if let Some(number) = signed_value(batch, row, col) {
        return ArrowRaw::Signed(number);
    }
    if let Some(number) = unsigned_value(batch, row, col) {
        return ArrowRaw::Unsigned(number);
    }
    if let Some(bits) = single_value(batch, row, col) {
        return ArrowRaw::Single(bits);
    }
    if let Some(bits) = double_value(batch, row, col) {
        return ArrowRaw::Double(bits);
    }
    if let Some(truth) = bool_value(batch, row, col) {
        return ArrowRaw::Bool(truth);
    }
    match date_kind(batch, row, col) {
        DateKind::Date32 => ArrowRaw::Date32,
        DateKind::Date64 => ArrowRaw::Date64,
        DateKind::Timestamp => ArrowRaw::Timestamp,
        DateKind::Other => ArrowRaw::Other,
    }
}

/// The values of a row.
fn read_row(batch: &Batch, row: usize) -> (values: Vec<ArrowValue>)
    requires
        row < batch_rows(batch).len(),
    ensures
        arrow_values_view(values@) == batch_rows(batch)[row as int],
{
    let ghost expected = batch_rows(batch)[row as int];
    let count: usize = column_count(batch);
    let mut values: Vec<ArrowValue> = Vec::new();
    let mut col: usize = 0;
    while col < count
        invariant
            col <= count,
            row < batch_rows(batch).len(),
            expected == batch_rows(batch)[row as int],
            expected.len() == count,
            arrow_values_view(values@) == expected.take(col as int),
        decreases count - col,
    {
        let ghost before = values@;
        let value = ArrowValue {
            null: is_null(batch, row, col),
            text: value_text(batch, row, col),
            raw: arrow_raw_value(batch, row, col),
        };
        assert(value@ =~= expected[col as int]);
        values.push(value);
        col += 1;
        assert(arrow_values_view(values@) =~= arrow_values_view(before).push(value@));
        assert(arrow_values_view(values@) =~= expected.take(col as int));
    }
    assert(expected.take(col as int) =~= expected);
    values
}

/// The content of rows of values.
pub open spec fn arrow_rows_view(rows: Seq<Vec<ArrowValue>>) -> Seq<Seq<ArrowValueView>> {
    rows.map_values(|row: Vec<ArrowValue>| arrow_values_view(row@))
}

/// The values of a batch, row by row.
pub fn read_batch(batch: &Batch) -> (rows: Vec<Vec<ArrowValue>>)
    ensures
        arrow_rows_view(rows@) == batch_rows(batch),
{
    let count: usize = row_count(batch);
    let mut rows: Vec<Vec<ArrowValue>> = Vec::new();
    let mut row: usize = 0;
    while row < count
        invariant
            row <= count,
            count == batch_rows(batch).len(),
            arrow_rows_view(rows@) == batch_rows(batch).take(row as int),
        decreases count - row,
    {
        let ghost before = rows@;
        let values = read_row(batch, row);
        rows.push(values);
        row += 1;
        assert(arrow_rows_view(rows@) =~= arrow_rows_view(before).push(
            arrow_values_view(values@),
        ));
        assert(arrow_rows_view(rows@) =~= batch_rows(batch).take(row as int));
    }
    assert(batch_rows(batch).take(row as int) =~= batch_rows(batch));
    rows
}

/// The text that is displayed for a value: an error in angle brackets.
pub open spec fn displayed_value(text: Result<Seq<char>, Seq<char>>) -> Seq<char> {
    match text {
        Ok(text) => text,
        Err(message) => "<error: "@ + message + ">"@,
    }
}

/// What a value counts as, given the bits of its number in double precision.
pub open spec fn counted_as(raw: ArrowRaw, number_bits: u64) -> CellRawValue {
    match raw {
        ArrowRaw::Signed(_) | ArrowRaw::Unsigned(_) | ArrowRaw::Single(_) => CellRawValue::Number {
            bits: number_bits,
        },
        ArrowRaw::Double(bits) => CellRawValue::Number { bits },
        ArrowRaw::Bool(truth) => CellRawValue::Bool(truth),
        ArrowRaw::Date32 | ArrowRaw::Date64 | ArrowRaw::Timestamp => CellRawValue::DateTime,
        ArrowRaw::Other => CellRawValue::Text,
    }
}

/// The cell of a value: empty where the value is null.
pub open spec fn cell_of_value(value: ArrowValueView, number_bits: u64) -> CellView {
    if value.null {
        empty_cell()
    } else {
        CellView {
            value: displayed_value(value.text),
            raw_value: counted_as(value.raw, number_bits),
            ..empty_cell()
        }
    }
}

/// The cell of a value, given the bits of its number in double precision, which
/// count for integers and single-precision numbers only.
pub fn array_value_to_cell(value: &ArrowValue, number_bits: u64) -> (cell: CellData)
    ensures
        cell@ == cell_of_value(value@, number_bits),
{
    let mut cell = CellData::default();
    if value.null {
        return cell;
    }
    cell.value = match &value.text {
        Ok(text) => text.clone(),
        Err(message) => {
            let mut text = "<error: ".to_owned();
            text.push_str(message.as_str());
            text.push_str(">");
            text
        },
    };
    cell.raw_value = match value.raw {
        ArrowRaw::Signed(_) | ArrowRaw::Unsigned(_) | ArrowRaw::Single(_) => CellRawValue::Number {
            bits: number_bits,
        },
        ArrowRaw::Double(bits) => CellRawValue::Number { bits },
        ArrowRaw::Bool(truth) => CellRawValue::Bool(truth),
        ArrowRaw::Date32 | ArrowRaw::Date64 | ArrowRaw::Timestamp => CellRawValue::DateTime,
        ArrowRaw::Other => CellRawValue::Text,
    };
    cell
}

/// The cells of a row, given the bits of the numbers in double precision.
pub fn record_batch_row_to_cells(values: &Vec<ArrowValue>, number_bits: &Vec<u64>) -> (cells: Vec<
    CellData,
>)
    requires
        number_bits@.len() == values@.len(),
    ensures
        cells_view(cells@) == Seq::new(
            values@.len(),
            |col: int| cell_of_value(values@[col]@, number_bits@[col]),
        ),
{
    let ghost expected = Seq::new(
        values@.len(),
        |col: int| cell_of_value(values@[col]@, number_bits@[col]),
    );
    let mut cells: Vec<CellData> = Vec::new();
    let mut col: usize = 0;
    while col < values.len()
        invariant
            col <= values@.len(),
            number_bits@.len() == values@.len(),
            expected == Seq::new(
                values@.len(),
                |col: int| cell_of_value(values@[col]@, number_bits@[col]),
            ),
            cells_view(cells@) == expected.take(col as int),
        decreases values@.len() - col,
    {
        let ghost before = cells@;
        let cell = array_value_to_cell(&values[col], number_bits[col]);
        assert(cell@ == expected[col as int]);
        cells.push(cell);
        col += 1;
        assert(cells_view(cells@) =~= cells_view(before).push(cell@));
        assert(cells_view(cells@) =~= expected.take(col as int));
    }
    assert(expected.take(col as int) =~= expected);
    cells
}

/// A value that is missing is displayed as nothing. Every other is displayed by its text, or by
/// what went wrong in angle brackets.
pub proof fn values_are_displayed_by_their_texts(value: ArrowValueView, number_bits: u64)
    ensures
        value.null ==> cell_of_value(value, number_bits).value == Seq::<char>::empty()
            && cell_of_value(value, number_bits).raw_value == CellRawValue::Empty,
        !value.null ==> (value.text matches Ok(text) ==> cell_of_value(value, number_bits).value
            == text),
        !value.null ==> (value.text matches Err(message) ==> ({
            let shown = cell_of_value(value, number_bits).value;
            &&& shown.len() == message.len() + 9
            &&& shown[0] == '<'
            &&& shown.last() == '>'
            &&& shown.subrange(8, shown.len() - 1) == message
        })),
{
    reveal_strlit("<error: ");
    reveal_strlit(">");
    if !value.null && value.text is Err {
        let shown = cell_of_value(value, number_bits).value;
        assert(shown.subrange(8, shown.len() - 1) =~= value.text->Err_0);
    }
}

/// Only numbers count as numbers, a double-precision one by its own bits; truth values, dates
/// and all other values count as what they are.
pub proof fn values_count_as_what_they_are(value: ArrowValueView, number_bits: u64)
    requires
        !value.null,
    ensures
        ({
            let counted = cell_of_value(value, number_bits).raw_value;
            &&& counted is Number <==> value.raw is Signed || value.raw is Unsigned
                || value.raw is Single || value.raw is Double
            &&& value.raw matches ArrowRaw::Double(bits) ==> counted == (CellRawValue::Number {
                bits,
            })
            &&& counted is Number && !(value.raw is Double) ==> counted == (CellRawValue::Number {
                bits: number_bits,
            })
            &&& counted is Bool <==> value.raw is Bool
            &&& value.raw matches ArrowRaw::Bool(truth) ==> counted == CellRawValue::Bool(truth)
            &&& counted is DateTime <==> value.raw is Date32 || value.raw is Date64
                || value.raw is Timestamp
            &&& counted is Text <==> value.raw is Other
        }),
{
}

} // verus!
