//! CSV files: their records, an index of their rows and the detection of a
//! header row.

use vstd::prelude::*;

use crate::cache::{
    copy_cells, inserting_evicts_the_oldest_row_at_most, RowCache, RowCacheView,
};
use crate::cell::{cell_rows_view, cells_view, empty_cell, CellData, CellRawValue, CellView};
use crate::export::strings_view;
use crate::merges::SheetFreeze;
use crate::numbers::{
    all_digits, decimal, digit_run_end, digits_denote_their_number, is_decimal_digit,
    is_decimal_float, is_digit_of, is_float, is_float_literal, lemma_run_of_digits, without_sign,
};
use crate::sheet::{lemma_widest, widest};
use crate::text::{
    ascii_lower, ascii_lowered, is_white_space, lower_text, lowering_changes_capitals_only,
    same_text, text_from, to_chars, trim, trimmed, trimmed_start,
};

verus! {

/// How many rows are kept in memory.
pub const CSV_ROW_CACHE_CAPACITY: usize = 512;

/// How many rows below the first are looked at to find out whether the first is
/// a header.
pub const CSV_HEADER_SAMPLE_DATA_ROWS: usize = 20;

/// The record reader of `csv`.
#[verifier::external_type_specification]
#[verifier::external_body]
#[verifier::reject_recursive_types(R)]
pub struct ExCsvReader<R>(csv::Reader<R>);

/// One record of a CSV file.
#[derive(Debug)]
pub struct CsvRecord {
    /// The offset of the byte at which the record begins.
    pub position: u64,
    pub fields: Vec<String>,
}

/// The mathematical content of a [`CsvRecord`].
#[verifier::ext_equal]
pub struct CsvRecordView {
    pub position: u64,
    pub fields: Seq<Seq<char>>,
}

impl View for CsvRecord {
    type V = CsvRecordView;

    open spec fn view(&self) -> CsvRecordView {
        CsvRecordView { position: self.position, fields: strings_view(self.fields@) }
    }
}

/// A record, or the message of the error that came in its place.
pub type CsvItemView = Result<CsvRecordView, Seq<char>>;

/// The records of the CSV data that some bytes are, in order. Records may differ
/// in length, and the first is one like the others.
pub uninterp spec fn csv_items(bytes: Seq<u8>) -> Seq<CsvItemView>;

/// The records that a reader has not handed out yet.
pub uninterp spec fn unread_records(reader: &csv::Reader<&[u8]>) -> Seq<CsvItemView>;

/// Whether bytes begin with a byte order mark, which a reader passes over at the
/// start of its data.
pub open spec fn begins_with_mark(bytes: Seq<u8>) -> bool {
    bytes.len() >= 3 && bytes[0] == 0xef && bytes[1] == 0xbb && bytes[2] == 0xbf
}

/// Whether a reader over the bytes hands the fields out first.
pub open spec fn reads_first(bytes: Seq<u8>, fields: Seq<Seq<char>>) -> bool {
    csv_items(bytes).len() > 0 && (csv_items(bytes)[0] matches Ok(record) && record.fields
        == fields)
}

/// Whether a byte order mark stands at an offset behind the start of the data.
pub open spec fn has_inner_mark(bytes: Seq<u8>, offset: u64) -> bool {
    offset > 0 && begins_with_mark(bytes.skip(offset as int))
}

/// Whether a reader that starts at a record's position hands that record out
/// first.
pub open spec fn position_leads_to_record(bytes: Seq<u8>, item: CsvItemView) -> bool {
    item matches Ok(record) ==> record.position <= bytes.len() && (!has_inner_mark(
        bytes,
        record.position,
    ) ==> reads_first(bytes.skip(record.position as int), record.fields))
}

/// `csv::ReaderBuilder` with `flexible(true)` and `has_headers(false)`: a reader
/// over the bytes, at their start.
///
/// A record's position is where the reader stood before it read the record. A
/// reader stands between two records then, in the state that it starts in, so
/// that a new reader from there on reads the same record; only a byte order mark
/// is passed over at the start of the data and nowhere else. So nothing is said
/// of a record behind the first that begins with such a mark.
#[verifier::external_body]
fn csv_reader<'a>(bytes: &'a [u8]) -> (reader: csv::Reader<&'a [u8]>)
    ensures
        unread_records(&reader) == csv_items(bytes@),
        forall|i: int|
            0 <= i < unread_records(&reader).len() ==> position_leads_to_record(
                bytes@,
                #[trigger] unread_records(&reader)[i],
            ),
{
    csv::ReaderBuilder::new().flexible(true).has_headers(false).from_reader(bytes)
}

/// What was handed out, as an item.
pub open spec fn csv_item_view(item: Result<CsvRecord, String>) -> CsvItemView {
    match item {
        Ok(record) => Ok(record@),
        Err(message) => Err(message@),
    }
}

/// `csv::Reader::read_record`: takes the next record off the reader, with its
/// fields as text; behind the last one there is none.
#[verifier::external_body]
fn read_record(reader: &mut csv::Reader<&[u8]>) -> (item: Option<Result<CsvRecord, String>>)
    ensures
        unread_records(old(reader)).len() == 0 ==> item is None && unread_records(final(reader))
            == unread_records(old(reader)),
        unread_records(old(reader)).len() > 0 ==> item is Some && csv_item_view(item->0)
            == unread_records(old(reader))[0] && unread_records(final(reader)) == unread_records(
            old(reader),
        ).skip(1),
{
    let mut record = csv::StringRecord::new();
    match reader.read_record(&mut record) {
        Ok(false) => None,
        Ok(true) => Some(Ok(CsvRecord {
            position: record.position().map_or_else(|| reader.position().byte(), |at| at.byte()),
            fields: record.iter().map(str::to_owned).collect(),
        })),
        Err(error) => Some(Err(error.to_string())),
    }
}

/// The records of CSV data, or the first error.
pub open spec fn all_records(items: Seq<CsvItemView>) -> Result<Seq<CsvRecordView>, Seq<char>>
    decreases items.len(),
{
    if items.len() == 0 {
        Ok(Seq::empty())
    } else {
        match items[0] {
            Err(message) => Err(message),
            Ok(record) => match all_records(items.skip(1)) {
                Err(message) => Err(message),
                Ok(rest) => Ok(seq![record] + rest),
            },
        }
    }
}

/// All records are read, in order, unless there is an error among them; then it is the
/// first one that is reported.
pub proof fn records_are_read_up_to_the_first_error(items: Seq<CsvItemView>, index: int)
    requires
        0 <= index < items.len(),
    ensures
        all_records(items) is Ok <==> forall|i: int| 0 <= i < items.len() ==> #[trigger] items[i] is Ok,
        all_records(items) matches Ok(records) ==> records.len() == items.len() && items[index]
            == Ok::<CsvRecordView, Seq<char>>(records[index]),
        items[index] is Err && (forall|i: int| 0 <= i < index ==> #[trigger] items[i] is Ok)
            ==> all_records(items) == Err::<Seq<CsvRecordView>, Seq<char>>(items[index]->Err_0),
    decreases items.len(),
{
    let rest = items.skip(1);
    assert forall|i: int| 0 <= i < rest.len() implies #[trigger] rest[i] == items[i + 1] by {}
    if items[0] is Ok {
        if rest.len() > 0 {
            let inner = if index > 0 {
                index - 1
            } else {
                0
            };
            records_are_read_up_to_the_first_error(rest, inner);
            if forall|i: int| 0 <= i < items.len() ==> #[trigger] items[i] is Ok {
                assert forall|i: int| 0 <= i < rest.len() implies #[trigger] rest[i] is Ok by {
                    assert(items[i + 1] is Ok);
                }
            }
            if forall|i: int| 0 <= i < rest.len() ==> #[trigger] rest[i] is Ok {
                assert forall|i: int| 0 <= i < items.len() implies #[trigger] items[i] is Ok by {
                    if i > 0 {
                        assert(rest[i - 1] is Ok);
                    }
                }
            }
        } else {
            assert(all_records(rest) == Ok::<Seq<CsvRecordView>, Seq<char>>(Seq::empty()));
        }
    }
}

/// The content of a list of records.
pub open spec fn records_view(records: Seq<CsvRecord>) -> Seq<CsvRecordView> {
    records.map_values(|record: CsvRecord| record@)
}

/// The content of a list of records, or the error in its place.
pub open spec fn records_result(records: Result<Vec<CsvRecord>, String>) -> Result<
    Seq<CsvRecordView>,
    Seq<char>,
> {
    match records {
        Ok(records) => Ok(records_view(records@)),
        Err(message) => Err(message@),
    }
}

/// A list of records with what follows it.
spec fn continued(earlier: Seq<CsvRecordView>, rest: Result<Seq<CsvRecordView>, Seq<char>>) -> Result<
    Seq<CsvRecordView>,
    Seq<char>,
> {
    match rest {
        Ok(rest) => Ok(earlier + rest),
        Err(message) => Err(message),
    }
}

/// Reads all records of CSV data.
pub fn read_records(bytes: &[u8]) -> (records: Result<Vec<CsvRecord>, String>)
    ensures
        records_result(records) == all_records(csv_items(bytes@)),
        records is Ok ==> forall|i: int|
            0 <= i < records->Ok_0@.len() ==> position_leads_to_record(
                bytes@,
                Ok::<CsvRecordView, Seq<char>>((#[trigger] records->Ok_0@[i])@),
            ),
{
    let mut reader = csv_reader(bytes);
    let ghost items = csv_items(bytes@);
    let mut records: Vec<CsvRecord> = Vec::new();
    proof {
        assert(records_view(records@) =~= Seq::<CsvRecordView>::empty());
        assert(items.skip(0) == items);
        match all_records(items) {
            Ok(all) => {
                assert(Seq::<CsvRecordView>::empty() + all == all);
            },
            Err(_) => {},
        }
    }
    let ghost mut done: int = 0;
    loop
        invariant
            items == csv_items(bytes@),
            0 <= done <= items.len(),
            unread_records(&reader) == items.skip(done),
            forall|i: int|
                0 <= i < items.len() ==> position_leads_to_record(bytes@, #[trigger] items[i]),
            forall|i: int|
                0 <= i < records@.len() ==> position_leads_to_record(
                    bytes@,
                    Ok::<CsvRecordView, Seq<char>>((#[trigger] records@[i])@),
                ),
            all_records(items) == continued(
                records_view(records@),
                all_records(items.skip(done)),
            ),
        decreases items.len() - done,
    {
        let ghost unread = items.skip(done);
        match read_record(&mut reader) {
            None => {
                assert(records_view(records@) + Seq::<CsvRecordView>::empty() == records_view(
                    records@,
                ));
                return Ok(records);
            },
            Some(Err(message)) => {
                return Err(message);
            },
            Some(Ok(record)) => {
                let ghost before = records@;
                assert(unread[0] == items[done]);
                assert(position_leads_to_record(bytes@, items[done]));
                records.push(record);
                proof {
                    assert(unread.skip(1) == items.skip(done + 1));
                    assert(records_view(records@) =~= records_view(before).push(record@));
                    match all_records(unread.skip(1)) {
                        Ok(rest) => {
                            assert(records_view(before) + (seq![record@] + rest)
                                == records_view(before).push(record@) + rest);
                        },
                        Err(_) => {},
                    }
                    done = done + 1;
                }
            },
        }
    }
}

/// What kind of text a CSV field holds.
#[derive(Debug, Clone, Copy, PartialEq, Eq, Structural)]
pub enum CsvCellKind {
    Empty,
    Bool,
    Int,
    Float,
    Date,
    Text,
}

impl CsvCellKind {
    /// Whether the kind tells data from text.
    pub open spec fn strong(self) -> bool {
        self == CsvCellKind::Bool || self == CsvCellKind::Int || self == CsvCellKind::Float || self
            == CsvCellKind::Date
    }

    /// Whether the kind tells data from text.
    pub fn is_strong(self) -> (strong: bool)
        ensures
            strong == self.strong(),
    {
        match self {
            CsvCellKind::Bool => true,
            CsvCellKind::Int => true,
            CsvCellKind::Float => true,
            CsvCellKind::Date => true,
            CsvCellKind::Empty => false,
            CsvCellKind::Text => false,
        }
    }
}

/// A text without one leading sign, unless nothing else is left.
pub open spec fn unsigned_part(text: Seq<char>) -> Seq<char> {
    if text.len() > 1 && (text[0] == '+' || text[0] == '-') {
        text.skip(1)
    } else {
        text
    }
}

/// Whether a text is an integer: digits behind an optional sign.
pub fn is_csv_int(value: &str) -> (is: bool)
    ensures
        is == all_digits(unsigned_part(value@), 10),
{
    let chars = to_chars(value);
    let start: usize = if chars.len() > 1 && (chars[0] == '+' || chars[0] == '-') {
        1
    } else {
        0
    };
    let ghost digits = unsigned_part(value@);
    assert(digits == value@.skip(start as int));
    let mut index: usize = start;
    while index < chars.len()
        invariant
            start <= index <= chars@.len(),
            chars@ == value@,
            digits == unsigned_part(value@),
            digits == value@.skip(start as int),
            forall|i: int| 0 <= i < index - start ==> is_digit_of(#[trigger] digits[i], 10),
        decreases chars@.len() - index,
    {
        assert(digits[index - start] == chars@[index as int]);
        if !is_decimal_digit(chars[index]) {
            return false;
        }
        index += 1;
    }
    true
}

/// Whether a text begins like a date: four digits, two and two, with hyphens
/// between them.
pub open spec fn begins_like_date(text: Seq<char>) -> bool {
    text.len() >= 10 && text[4] == '-' && text[7] == '-' && forall|i: int|
        0 <= i < 10 && i != 4 && i != 7 ==> is_digit_of(#[trigger] text[i], 10)
}

/// Whether a text begins like a date.
pub fn is_iso_date_prefix(value: &str) -> (is: bool)
    ensures
        is == begins_like_date(value@),
{
    let chars = to_chars(value);
    if chars.len() < 10 || chars[4] != '-' || chars[7] != '-' {
        return false;
    }
    let mut index: usize = 0;
    while index < 10
        invariant
            index <= 10 <= chars@.len(),
            chars@ == value@,
            forall|i: int|
                0 <= i < index && i != 4 && i != 7 ==> is_digit_of(#[trigger] chars@[i], 10),
        decreases 10 - index,
    {
        if index != 4 && index != 7 && !is_decimal_digit(chars[index]) {
            return false;
        }
        index += 1;
    }
    true
}

/// What kind of text a CSV field holds, white space at its ends aside.
pub open spec fn kind_of(text: Seq<char>) -> CsvCellKind {
    let value = trimmed(text);
    let lowered = ascii_lowered(value);
    if value.len() == 0 {
        CsvCellKind::Empty
    } else if lowered == "true"@ || lowered == "false"@ {
        CsvCellKind::Bool
    } else if all_digits(unsigned_part(value), 10) {
        CsvCellKind::Int
    } else if is_float_literal(value) {
        CsvCellKind::Float
    } else if begins_like_date(value) {
        CsvCellKind::Date
    } else {
        CsvCellKind::Text
    }
}

/// What kind of text a CSV field holds.
pub fn csv_cell_kind(value: &str) -> (kind: CsvCellKind)
    ensures
        kind == kind_of(value@),
{
    let value = trim(value);
    if value.as_str().is_empty() {
        return CsvCellKind::Empty;
    }
    let lowered = lower_text(value.as_str());
    if same_text(lowered.as_str(), "true") || same_text(lowered.as_str(), "false") {
        return CsvCellKind::Bool;
    }
    if is_csv_int(value.as_str()) {
        return CsvCellKind::Int;
    }
    if is_float(value.as_str()) {
        return CsvCellKind::Float;
    }
    if is_iso_date_prefix(value.as_str()) {
        return CsvCellKind::Date;
    }
    CsvCellKind::Text
}

/// A text that begins and ends with anything but white space is trimmed already.
proof fn lemma_trimmed(text: Seq<char>)
    requires
        text.len() > 0,
        !is_white_space(text[0]),
        !is_white_space(text.last()),
    ensures
        trimmed(text) == text,
{
    assert(trimmed_start(text) == text);
}

/// White space around a field does not change its kind.
pub proof fn kinds_do_not_depend_on_white_space(text: Seq<char>, space: char)
    requires
        is_white_space(space),
    ensures
        kind_of(seq![space] + text) == kind_of(text),
        kind_of(text.push(space)) == kind_of(text),
{
    let front = seq![space] + text;
    assert(front[0] == space);
    assert(front.skip(1) == text);
    lemma_trim_behind(text, space);
}

proof fn lemma_trim_behind(text: Seq<char>, space: char)
    requires
        is_white_space(space),
    ensures
        trimmed(text.push(space)) == trimmed(text),
    decreases text.len(),
{
    let longer = text.push(space);
    if text.len() == 0 {
        assert(longer.skip(1) == text);
        assert(trimmed_start(longer) == trimmed_start(longer.skip(1)));
    } else if is_white_space(text[0]) {
        assert(longer[0] == text[0]);
        assert(longer.skip(1) == text.skip(1).push(space));
        lemma_trim_behind(text.skip(1), space);
    } else {
        assert(longer[0] == text[0]);
        assert(trimmed_start(longer) == longer);
        assert(trimmed_start(text) == text);
        assert(longer.drop_last() == text);
    }
}

proof fn lemma_digit_is_no_space(ch: char)
    requires
        is_digit_of(ch, 10),
    ensures
        !is_white_space(ch),
        '0' <= ch <= '9',
        ascii_lower(ch) == ch,
{
}

/// A text whose first character is a digit or a sign is no word.
proof fn lemma_no_word(text: Seq<char>)
    requires
        text.len() > 0,
        text[0] < 'A',
    ensures
        ascii_lowered(text) != "true"@,
        ascii_lowered(text) != "false"@,
        ascii_lowered(text) != "inf"@,
        ascii_lowered(text) != "infinity"@,
        ascii_lowered(text) != "nan"@,
{
    reveal_strlit("true");
    reveal_strlit("false");
    reveal_strlit("inf");
    reveal_strlit("infinity");
    reveal_strlit("nan");
    let lowered = ascii_lowered(text);
    assert(lowered[0] == text[0]);
    if lowered == "true"@ {
        assert(lowered[0] == "true"@[0]);
    }
    if lowered == "false"@ {
        assert(lowered[0] == "false"@[0]);
    }
    if lowered == "inf"@ {
        assert(lowered[0] == "inf"@[0]);
    }
    if lowered == "infinity"@ {
        assert(lowered[0] == "infinity"@[0]);
    }
    if lowered == "nan"@ {
        assert(lowered[0] == "nan"@[0]);
    }
}

/// Every whole number is taken for one, with a sign or without.
pub proof fn whole_numbers_are_ints(number: nat)
    ensures
        kind_of(decimal(number)) == CsvCellKind::Int,
        kind_of(seq!['-'] + decimal(number)) == CsvCellKind::Int,
        kind_of(seq!['+'] + decimal(number)) == CsvCellKind::Int,
{
    let digits = decimal(number);
    digits_denote_their_number(number, 10);
    assert(is_digit_of(digits[0], 10) && is_digit_of(digits.last(), 10));
    lemma_digit_is_no_space(digits[0]);
    lemma_digit_is_no_space(digits.last());
    lemma_trimmed(digits);
    lemma_no_word(digits);
    assert(unsigned_part(digits) == digits);
    let below = seq!['-'] + digits;
    assert(below.last() == digits.last() && below[0] == '-');
    lemma_trimmed(below);
    lemma_no_word(below);
    assert(below.skip(1) == digits);
    let above = seq!['+'] + digits;
    assert(above.last() == digits.last() && above[0] == '+');
    lemma_trimmed(above);
    lemma_no_word(above);
    assert(above.skip(1) == digits);
}

/// Every decimal fraction is taken for one.
pub proof fn fractions_are_floats(whole: nat, fraction: nat)
    ensures
        kind_of(decimal(whole) + seq!['.'] + decimal(fraction)) == CsvCellKind::Float,
{
    let before = decimal(whole);
    let behind = decimal(fraction);
    let text = before + seq!['.'] + behind;
    digits_denote_their_number(whole, 10);
    digits_denote_their_number(fraction, 10);
    assert(is_digit_of(before[0], 10) && is_digit_of(behind.last(), 10));
    lemma_digit_is_no_space(before[0]);
    lemma_digit_is_no_space(behind.last());
    assert(text[0] == before[0] && text.last() == behind.last());
    lemma_trimmed(text);
    lemma_no_word(text);
    assert(unsigned_part(text) == text);
    let point = before.len() as int;
    assert(text[point] == '.');
    assert(!is_digit_of('.', 10));
    assert(!all_digits(text, 10));
    assert(without_sign(text) == text);
    assert(text =~= before + (seq!['.'] + behind));
    lemma_run_of_digits(before, seq!['.'] + behind, 0);
    lemma_run_to_end(text, point + 1);
    assert(text.skip(text.len() as int).len() == 0);
}

proof fn lemma_run_to_end(text: Seq<char>, start: int)
    requires
        0 <= start <= text.len(),
        forall|i: int| start <= i < text.len() ==> is_digit_of(#[trigger] text[i], 10),
    ensures
        digit_run_end(text, start) == text.len(),
    decreases text.len() - start,
{
    if start < text.len() {
        lemma_run_to_end(text, start + 1);
    }
}

/// A text of four digits, two and two, with hyphens between them, is taken for a date,
/// whatever follows it.
pub proof fn iso_dates_are_dates(year: Seq<char>, month: Seq<char>, day: Seq<char>, rest: Seq<char>)
    requires
        year.len() == 4 && all_digits(year, 10),
        month.len() == 2 && all_digits(month, 10),
        day.len() == 2 && all_digits(day, 10),
        rest.len() > 0 ==> !is_white_space(rest.last()),
    ensures
        kind_of(year + seq!['-'] + month + seq!['-'] + day + rest) == CsvCellKind::Date,
{
    let text = year + seq!['-'] + month + seq!['-'] + day + rest;
    assert(is_digit_of(year[0], 10) && is_digit_of(day[1], 10));
    lemma_digit_is_no_space(year[0]);
    lemma_digit_is_no_space(day[1]);
    assert(text[0] == year[0]);
    assert(text.last() == if rest.len() > 0 {
        rest.last()
    } else {
        day[1]
    });
    lemma_trimmed(text);
    lemma_no_word(text);
    assert(text[4] == '-' && text[7] == '-');
    assert(!is_digit_of('-', 10));
    assert(unsigned_part(text) == text);
    assert(!all_digits(text, 10)) by {
        assert(!is_digit_of(text[4], 10));
    }
    assert(without_sign(text) == text);
    let tail = seq!['-'] + month + seq!['-'] + day + rest;
    assert(text =~= year + tail);
    lemma_run_of_digits(year, tail, 0);
    assert(text.skip(4)[0] == '-');
    assert forall|i: int| 0 <= i < 10 && i != 4 && i != 7 implies is_digit_of(
        #[trigger] text[i],
        10,
    ) by {
        if i < 4 {
            assert(text[i] == year[i]);
        } else if i < 7 {
            assert(text[i] == month[i - 5]);
        } else {
            assert(text[i] == day[i - 8]);
        }
    }
}

/// The words for truth values are taken for such in any case, and a blank field for nothing.
pub proof fn truth_words_are_bools(text: Seq<char>)
    ensures
        ascii_lowered(text) == "true"@ || ascii_lowered(text) == "false"@ ==> kind_of(text)
            == CsvCellKind::Bool,
        trimmed(text).len() == 0 <==> kind_of(text) == CsvCellKind::Empty,
{
    reveal_strlit("true");
    reveal_strlit("false");
    let lowered = ascii_lowered(text);
    if lowered == "true"@ || lowered == "false"@ {
        assert(lowered[0] == 't' || lowered[0] == 'f');
        assert(lowered.last() == 'e');
        assert(lowered[0] == ascii_lower(text[0]));
        assert(lowered.last() == ascii_lower(text.last()));
        assert(!is_white_space(text[0]) && !is_white_space(text.last()));
        lemma_trimmed(text);
    }
}

/// A field that begins with a letter is taken for text, unless it is one of the words for
/// truth values, infinity and not-a-number.
pub proof fn names_are_texts(text: Seq<char>)
    requires
        text.len() > 0,
        'a' <= ascii_lower(text[0]) <= 'z',
        !is_white_space(text.last()),
        ascii_lowered(text) != "true"@,
        ascii_lowered(text) != "false"@,
        ascii_lowered(text) != "inf"@,
        ascii_lowered(text) != "infinity"@,
        ascii_lowered(text) != "nan"@,
    ensures
        kind_of(text) == CsvCellKind::Text,
{
    assert(!is_white_space(text[0]));
    lemma_trimmed(text);
    assert(unsigned_part(text) == text);
    assert(!is_digit_of(text[0], 10));
    assert(!all_digits(text, 10));
    assert(without_sign(text) == text);
    assert(digit_run_end(text, 0) == 0);
    if begins_like_date(text) {
        assert(is_digit_of(text[0], 10));
    }
    assert(text[0] != '.');
}

/// The field of a row, empty where the row is too short.
pub open spec fn field_of(row: Seq<Seq<char>>, col: int) -> Seq<char> {
    if 0 <= col < row.len() {
        row[col]
    } else {
        Seq::empty()
    }
}

/// The field of a row, empty where the row is too short.
pub fn cell_value(row: &Vec<String>, col_ix: usize) -> (value: &str)
    ensures
        value@ == field_of(strings_view(row@), col_ix as int),
{
    if col_ix < row.len() {
        row[col_ix].as_str()
    } else {
        proof {
            reveal_strlit("");
            assert(""@ =~= Seq::<char>::empty());
        }
        ""
    }
}

/// The content of rows of fields.
pub open spec fn field_rows_view(rows: Seq<Vec<String>>) -> Seq<Seq<Seq<char>>> {
    rows.map_values(|row: Vec<String>| strings_view(row@))
}

/// Whether a row has a field that is not blank.
pub open spec fn has_content(row: Seq<Seq<char>>) -> bool {
    exists|i: int| 0 <= i < row.len() && trimmed(#[trigger] row[i]).len() > 0
}

/// How many rows have a field that is not blank.
pub open spec fn rows_with_content(rows: Seq<Seq<Seq<char>>>) -> nat
    decreases rows.len(),
{
    if rows.len() == 0 {
        0
    } else {
        rows_with_content(rows.drop_last()) + if has_content(rows.last()) {
            1nat
        } else {
            0nat
        }
    }
}

/// Whether a row has a field that is not blank.
fn row_has_content(row: &Vec<String>) -> (has: bool)
    ensures
        has == has_content(strings_view(row@)),
{
    let ghost views = strings_view(row@);
    let mut index: usize = 0;
    while index < row.len()
        invariant
            index <= row@.len(),
            views == strings_view(row@),
            forall|i: int| 0 <= i < index ==> trimmed(#[trigger] views[i]).len() == 0,
        decreases row@.len() - index,
    {
        let value = trim(row[index].as_str());
        if !value.as_str().is_empty() {
            assert(trimmed(views[index as int]).len() > 0);
            return true;
        }
        index += 1;
    }
    false
}

/// How many of the rows from `first` on have a field that is not blank.
pub fn non_empty_row_count(rows: &Vec<Vec<String>>, first: usize) -> (count: usize)
    requires
        first <= rows@.len(),
    ensures
        count == rows_with_content(field_rows_view(rows@).skip(first as int)),
{
    let ghost views = field_rows_view(rows@).skip(first as int);
    let mut count: usize = 0;
    let mut index: usize = first;
    assert(views.take(0) == Seq::<Seq<Seq<char>>>::empty());
    while index < rows.len()
        invariant
            first <= index <= rows@.len(),
            views == field_rows_view(rows@).skip(first as int),
            count <= index - first,
            count == rows_with_content(views.take(index - first)),
        decreases rows@.len() - index,
    {
        proof {
            let longer = views.take(index - first + 1);
            assert(longer.drop_last() == views.take(index - first));
            assert(longer.last() == strings_view(rows@[index as int]@));
        }
        if row_has_content(&rows[index]) {
            count += 1;
        }
        index += 1;
    }
    assert(views.take(index - first) == views);
    count
}

/// Whether two fields of a row hold the same text that is not blank.
pub open spec fn has_duplicate(row: Seq<Seq<char>>) -> bool {
    exists|i: int, j: int|
        0 <= i < j < row.len() && trimmed(#[trigger] row[i]).len() > 0 && trimmed(row[i])
            == trimmed(#[trigger] row[j])
}

/// Whether two fields of a row hold the same text that is not blank.
pub fn has_duplicate_non_empty_value(row: &Vec<String>) -> (has: bool)
    ensures
        has == has_duplicate(strings_view(row@)),
{
    let ghost views = strings_view(row@);
    let mut seen: Vec<String> = Vec::new();
    let mut index: usize = 0;
    while index < row.len()
        invariant
            index <= row@.len(),
            views == strings_view(row@),
            seen@.len() == index,
            forall|i: int| 0 <= i < index ==> (#[trigger] seen@[i])@ == trimmed(views[i]),
            forall|i: int, j: int|
                0 <= i < j < index && trimmed(#[trigger] views[i]).len() > 0 ==> trimmed(views[i])
                    != trimmed(#[trigger] views[j]),
        decreases row@.len() - index,
    {
        let value = trim(row[index].as_str());
        assert(value@ == trimmed(views[index as int]));
        if !value.as_str().is_empty() {
            let mut earlier: usize = 0;
            while earlier < index
                invariant
                    earlier <= index < row@.len(),
                    views == strings_view(row@),
                    seen@.len() == index,
                    value@ == trimmed(views[index as int]),
                    value@.len() > 0,
                    forall|i: int| 0 <= i < index ==> (#[trigger] seen@[i])@ == trimmed(views[i]),
                    forall|i: int|
                        0 <= i < earlier ==> trimmed(#[trigger] views[i]) != trimmed(
                            views[index as int],
                        ),
                decreases index - earlier,
            {
                assert(seen@[earlier as int]@ == trimmed(views[earlier as int]));
                if same_text(seen[earlier].as_str(), value.as_str()) {
                    return true;
                }
                earlier += 1;
            }
        }
        seen.push(value);
        index += 1;
    }
    false
}

/// The kinds of the fields of a column that are not blank, from the top down.
pub open spec fn column_kinds(rows: Seq<Seq<Seq<char>>>, col: int) -> Seq<CsvCellKind>
    decreases rows.len(),
{
    if rows.len() == 0 {
        Seq::empty()
    } else {
        let earlier = column_kinds(rows.drop_last(), col);
        let kind = kind_of(field_of(rows.last(), col));
        if kind == CsvCellKind::Empty {
            earlier
        } else {
            earlier.push(kind)
        }
    }
}

/// The type of a column: the kind that all its fields have which are not blank,
/// if there are two of them and the kind tells data from text.
pub open spec fn column_type(rows: Seq<Seq<Seq<char>>>, col: int) -> Option<CsvCellKind> {
    let kinds = column_kinds(rows, col);
    if kinds.len() >= 2 && kinds[0].strong() && forall|i: int|
        0 <= i < kinds.len() ==> #[trigger] kinds[i] == kinds[0] {
        Some(kinds[0])
    } else {
        None
    }
}

/// The kinds of the first rows are a prefix of the kinds of all.
proof fn lemma_column_kinds_prefix(rows: Seq<Seq<Seq<char>>>, length: int, col: int)
    requires
        0 <= length <= rows.len(),
    ensures
        column_kinds(rows.take(length), col).len() <= column_kinds(rows, col).len(),
        column_kinds(rows.take(length), col) == column_kinds(rows, col).take(
            column_kinds(rows.take(length), col).len() as int,
        ),
    decreases rows.len() - length,
{
    if length == rows.len() {
        assert(rows.take(length) == rows);
        assert(column_kinds(rows, col).take(column_kinds(rows, col).len() as int) == column_kinds(
            rows,
            col,
        ));
    } else {
        lemma_column_kinds_prefix(rows, length + 1, col);
        let longer = rows.take(length + 1);
        assert(longer.drop_last() == rows.take(length));
        let short = column_kinds(rows.take(length), col);
        let long = column_kinds(longer, col);
        assert(short == long.take(short.len() as int));
        assert(long.take(short.len() as int) == column_kinds(rows, col).take(short.len() as int));
    }
}

/// Infers the type of a column from the rows from `first` on.
pub fn infer_csv_column_type(rows: &Vec<Vec<String>>, first: usize, col_ix: usize) -> (kind: Option<
    CsvCellKind,
>)
    requires
        first <= rows@.len(),
    ensures
        kind == column_type(field_rows_view(rows@).skip(first as int), col_ix as int),
{
    let ghost views = field_rows_view(rows@).skip(first as int);
    let ghost all = column_kinds(views, col_ix as int);
    let mut inferred: Option<CsvCellKind> = None;
    let mut count: usize = 0;
    let mut index: usize = first;
    assert(views.take(0) == Seq::<Seq<Seq<char>>>::empty());
    while index < rows.len()
        invariant
            first <= index <= rows@.len(),
            views == field_rows_view(rows@).skip(first as int),
            all == column_kinds(views, col_ix as int),
            count <= index - first,
            count == column_kinds(views.take(index - first), col_ix as int).len(),
            forall|i: int|
                0 <= i < count ==> inferred == Some(
                    #[trigger] column_kinds(views.take(index - first), col_ix as int)[i],
                ),
            count == 0 ==> inferred is None,
            inferred is Some ==> inferred->0.strong(),
        decreases rows@.len() - index,
    {
        let ghost shorter = views.take(index - first);
        let ghost longer = views.take(index - first + 1);
        let ghost before = column_kinds(shorter, col_ix as int);
        let ghost after = column_kinds(longer, col_ix as int);
        let kind = csv_cell_kind(cell_value(&rows[index], col_ix));
        proof {
            assert(longer.drop_last() == shorter);
            assert(longer.last() == strings_view(rows@[index as int]@));
            lemma_column_kinds_prefix(views, index - first + 1, col_ix as int);
            assert(kind != CsvCellKind::Empty ==> after == before.push(kind));
            assert(kind == CsvCellKind::Empty ==> after == before);
            let prefix = all.take(after.len() as int);
            if kind != CsvCellKind::Empty {
                assert(prefix[count as int] == kind);
            }
            if count > 0 {
                assert(prefix[0] == before[0]);
            }
        }
        if kind != CsvCellKind::Empty {
            if !kind.is_strong() {
                assert(all[count as int] == kind);
                return None;
            }
            match inferred {
                Some(existing) => {
                    if existing != kind {
                        assert(all[0] == existing && all[count as int] == kind);
                        return None;
                    }
                },
                None => {
                    inferred = Some(kind);
                },
            }
            count += 1;
        }
        index += 1;
    }
    assert(views.take(index - first) == views);
    assert(count > 0 ==> inferred == Some(all[0]));
    if count >= 2 {
        inferred
    } else {
        None
    }
}

/// Infers the types of the first columns from the rows from `first` on.
pub fn infer_csv_column_types(rows: &Vec<Vec<String>>, first: usize, col_count: usize) -> (kinds:
    Vec<Option<CsvCellKind>>)
    requires
        first <= rows@.len(),
    ensures
        kinds@ == Seq::new(
            col_count as nat,
            |col: int| column_type(field_rows_view(rows@).skip(first as int), col),
        ),
{
    let ghost expected = Seq::new(
        col_count as nat,
        |col: int| column_type(field_rows_view(rows@).skip(first as int), col),
    );
    let mut kinds: Vec<Option<CsvCellKind>> = Vec::new();
    let mut col: usize = 0;
    while col < col_count
        invariant
            first <= rows@.len(),
            col <= col_count,
            expected == Seq::new(
                col_count as nat,
                |col: int| column_type(field_rows_view(rows@).skip(first as int), col),
            ),
            kinds@ == expected.take(col as int),
        decreases col_count - col,
    {
        kinds.push(infer_csv_column_type(rows, first, col));
        col += 1;
        assert(kinds@ =~= expected.take(col as int));
    }
    assert(expected.take(col as int) == expected);
    kinds
}

/// Whether the first row of CSV data is a header.
#[derive(Debug, Clone, Copy, PartialEq, Eq, Structural)]
pub enum CsvHeaderDetection {
    Header,
    NoHeader,
    Unknown,
}

/// Whether the first row is a header, as far as the rows show it.
///
/// It takes two columns and two rows below with content to tell. Two equal
/// fields in the first row mean that it is none. Then a column below has to have
/// a type; the first row is a header if it holds text, no fractions and no dates,
/// and none of its fields is of its column's type.
pub open spec fn header_detection(rows: Seq<Seq<Seq<char>>>) -> CsvHeaderDetection {
    if rows.len() == 0 {
        CsvHeaderDetection::Unknown
    } else {
        let header = rows[0];
        let data = rows.skip(1);
        let columns = widest(rows);
        if columns < 2 || rows_with_content(data) < 2 {
            CsvHeaderDetection::Unknown
        } else if has_duplicate(header) {
            CsvHeaderDetection::NoHeader
        } else if forall|col: int| 0 <= col < columns ==> #[trigger] column_type(data, col) is None {
            CsvHeaderDetection::Unknown
        } else if forall|col: int|
            0 <= col < columns ==> #[trigger] kind_of(field_of(header, col)) != CsvCellKind::Text {
            CsvHeaderDetection::NoHeader
        } else if exists|col: int|
            0 <= col < columns && (#[trigger] kind_of(field_of(header, col)) == CsvCellKind::Float
                || kind_of(field_of(header, col)) == CsvCellKind::Date) {
            CsvHeaderDetection::NoHeader
        } else if exists|col: int|
            0 <= col < columns && #[trigger] column_type(data, col) == Some(
                kind_of(field_of(header, col)),
            ) {
            CsvHeaderDetection::NoHeader
        } else {
            CsvHeaderDetection::Header
        }
    }
}

/// The kind of the field in a row and a column.
pub open spec fn kind_at(rows: Seq<Seq<Seq<char>>>, row: int, col: int) -> CsvCellKind {
    kind_of(field_of(rows[row], col))
}

/// Whether a column has values of one kind below the first row: at least two, all of that
/// kind but for blank ones, and of a kind that tells data from text.
pub open spec fn column_holds(
    rows: Seq<Seq<Seq<char>>>,
    col: int,
    kind: CsvCellKind,
) -> bool {
    &&& kind == CsvCellKind::Bool || kind == CsvCellKind::Int || kind == CsvCellKind::Float || kind
        == CsvCellKind::Date
    &&& exists|i: int, j: int|
        1 <= i < j < rows.len() && #[trigger] kind_at(rows, i, col) == kind && #[trigger] kind_at(
            rows,
            j,
            col,
        ) == kind
    &&& forall|i: int|
        1 <= i < rows.len() ==> #[trigger] kind_at(rows, i, col) == CsvCellKind::Empty || kind_at(
            rows,
            i,
            col,
        ) == kind
}

/// Whether a row has a field with anything but white space.
pub open spec fn is_filled(row: Seq<Seq<char>>) -> bool {
    exists|col: int| 0 <= col < row.len() && trimmed(#[trigger] row[col]) != Seq::<char>::empty()
}

/// Whether there is enough to tell a header by: two columns, and two rows below the first
/// with anything in them.
pub open spec fn can_tell_header(rows: Seq<Seq<Seq<char>>>) -> bool {
    &&& exists|row: int| 0 <= row < rows.len() && (#[trigger] rows[row]).len() >= 2
    &&& exists|i: int, j: int|
        1 <= i < j < rows.len() && is_filled(#[trigger] rows[i]) && is_filled(#[trigger] rows[j])
}

/// Whether two fields of the first row say the same.
pub open spec fn repeats_a_name(rows: Seq<Seq<Seq<char>>>) -> bool {
    exists|i: int, j: int|
        0 <= i < j < rows[0].len() && trimmed(#[trigger] rows[0][i]) == trimmed(
            #[trigger] rows[0][j],
        ) && trimmed(rows[0][i]) != Seq::<char>::empty()
}

proof fn lemma_column_kinds(rows: Seq<Seq<Seq<char>>>, col: int)
    ensures
        forall|k: int|
            0 <= k < column_kinds(rows, col).len() ==> #[trigger] column_kinds(rows, col)[k]
                != CsvCellKind::Empty && exists|i: int|
                0 <= i < rows.len() && #[trigger] kind_at(rows, i, col) == column_kinds(
                    rows,
                    col,
                )[k],
        forall|i: int|
            0 <= i < rows.len() && #[trigger] kind_at(rows, i, col) != CsvCellKind::Empty
                ==> column_kinds(rows, col).contains(kind_at(rows, i, col)),
        column_kinds(rows, col).len() >= 1 <==> exists|i: int|
            0 <= i < rows.len() && #[trigger] kind_at(rows, i, col) != CsvCellKind::Empty,
        column_kinds(rows, col).len() >= 2 <==> exists|i: int, j: int|
            0 <= i < j < rows.len() && #[trigger] kind_at(rows, i, col) != CsvCellKind::Empty
                && #[trigger] kind_at(rows, j, col) != CsvCellKind::Empty,
    decreases rows.len(),
{
    if rows.len() > 0 {
        let shorter = rows.drop_last();
        lemma_column_kinds(shorter, col);
        let before = column_kinds(shorter, col);
        let after = column_kinds(rows, col);
        let last = rows.len() - 1;
        let kind = kind_at(rows, last, col);
        assert forall|i: int| 0 <= i < last implies #[trigger] kind_at(rows, i, col) == kind_at(
            shorter,
            i,
            col,
        ) by {
            assert(rows[i] == shorter[i]);
        }
        assert(kind == CsvCellKind::Empty ==> after == before);
        assert(kind != CsvCellKind::Empty ==> after == before.push(kind));
        assert forall|k: int| 0 <= k < after.len() implies #[trigger] after[k]
            != CsvCellKind::Empty && exists|i: int|
            0 <= i < rows.len() && #[trigger] kind_at(rows, i, col) == after[k] by {
            if k < before.len() {
                assert(after[k] == before[k]);
                let i = choose|i: int|
                    0 <= i < shorter.len() && #[trigger] kind_at(shorter, i, col) == before[k];
                assert(kind_at(rows, i, col) == after[k]);
            } else {
                assert(kind_at(rows, last, col) == after[k]);
            }
        }
        assert forall|i: int|
            0 <= i < rows.len() && #[trigger] kind_at(rows, i, col)
                != CsvCellKind::Empty implies after.contains(kind_at(rows, i, col)) by {
            if i < last {
                assert(before.contains(kind_at(shorter, i, col)));
                let k = choose|k: int| 0 <= k < before.len() && before[k] == kind_at(shorter, i, col);
                assert(after[k] == kind_at(rows, i, col));
            } else {
                assert(after[after.len() - 1] == kind);
            }
        }
        if after.len() >= 1 {
            if before.len() >= 1 {
                let i = choose|i: int|
                    0 <= i < shorter.len() && #[trigger] kind_at(shorter, i, col)
                        != CsvCellKind::Empty;
                assert(kind_at(rows, i, col) != CsvCellKind::Empty);
                if kind != CsvCellKind::Empty {
                    assert(kind_at(rows, last, col) != CsvCellKind::Empty);
                }
            } else {
                assert(kind_at(rows, last, col) != CsvCellKind::Empty);
            }
        }
        if before.len() >= 2 {
            let (i, j) = choose|i: int, j: int|
                0 <= i < j < shorter.len() && #[trigger] kind_at(shorter, i, col)
                    != CsvCellKind::Empty && #[trigger] kind_at(shorter, j, col)
                    != CsvCellKind::Empty;
            assert(kind_at(rows, i, col) != CsvCellKind::Empty && kind_at(rows, j, col)
                != CsvCellKind::Empty);
        }
        assert forall|i: int, j: int|
            0 <= i < j < rows.len() && #[trigger] kind_at(rows, i, col) != CsvCellKind::Empty
                && #[trigger] kind_at(rows, j, col) != CsvCellKind::Empty implies after.len() >= 2 by {
            assert(kind_at(shorter, i, col) != CsvCellKind::Empty);
            assert(before.len() >= 1);
            if j < last {
                assert(kind_at(shorter, j, col) != CsvCellKind::Empty);
            }
        }
    }
}

/// A column's type is the kind of its values.
proof fn lemma_column_type(rows: Seq<Seq<Seq<char>>>, col: int, kind: CsvCellKind)
    requires
        rows.len() > 0,
    ensures
        column_type(rows.skip(1), col) == Some(kind) <==> column_holds(rows, col, kind),
{
    let data = rows.skip(1);
    let kinds = column_kinds(data, col);
    lemma_column_kinds(data, col);
    assert forall|i: int| 0 <= i < data.len() implies #[trigger] kind_at(data, i, col) == kind_at(
        rows,
        i + 1,
        col,
    ) by {
        assert(data[i] == rows[i + 1]);
    }
    if column_type(data, col) == Some(kind) {
        let (i, j) = choose|i: int, j: int|
            0 <= i < j < data.len() && #[trigger] kind_at(data, i, col) != CsvCellKind::Empty
                && #[trigger] kind_at(data, j, col) != CsvCellKind::Empty;
        assert(kinds.contains(kind_at(data, i, col)));
        assert(kinds.contains(kind_at(data, j, col)));
        assert(kind_at(rows, i + 1, col) == kind && kind_at(rows, j + 1, col) == kind);
        assert forall|r: int| 1 <= r < rows.len() implies #[trigger] kind_at(rows, r, col)
            == CsvCellKind::Empty || kind_at(rows, r, col) == kind by {
            assert(kind_at(data, r - 1, col) == kind_at(rows, r, col));
            if kind_at(rows, r, col) != CsvCellKind::Empty {
                assert(kinds.contains(kind_at(data, r - 1, col)));
            }
        }
    }
    if column_holds(rows, col, kind) {
        let (i, j) = choose|i: int, j: int|
            1 <= i < j < rows.len() && #[trigger] kind_at(rows, i, col) == kind
                && #[trigger] kind_at(rows, j, col) == kind;
        assert(kind_at(data, i - 1, col) == kind && kind_at(data, j - 1, col) == kind);
        assert forall|k: int| 0 <= k < kinds.len() implies #[trigger] kinds[k] == kind by {
            let r = choose|r: int| 0 <= r < data.len() && #[trigger] kind_at(data, r, col) == kinds[k];
            assert(kind_at(rows, r + 1, col) == kinds[k]);
        }
    }
}

/// Counting rows with content finds one, or two, where there are such.
proof fn lemma_rows_with_content(rows: Seq<Seq<Seq<char>>>)
    ensures
        rows_with_content(rows) >= 1 <==> exists|i: int|
            0 <= i < rows.len() && is_filled(#[trigger] rows[i]),
        rows_with_content(rows) >= 2 <==> exists|i: int, j: int|
            0 <= i < j < rows.len() && is_filled(#[trigger] rows[i]) && is_filled(
                #[trigger] rows[j],
            ),
    decreases rows.len(),
{
    if rows.len() > 0 {
        let shorter = rows.drop_last();
        let last = rows.len() - 1;
        lemma_rows_with_content(shorter);
        lemma_is_filled(rows.last());
        if rows_with_content(shorter) >= 1 {
            let i = choose|i: int| 0 <= i < shorter.len() && is_filled(#[trigger] shorter[i]);
            assert(is_filled(rows[i]));
            if is_filled(rows.last()) {
                assert(is_filled(rows[last]));
            }
        }
        if rows_with_content(shorter) >= 2 {
            let (i, j) = choose|i: int, j: int|
                0 <= i < j < shorter.len() && is_filled(#[trigger] shorter[i]) && is_filled(
                    #[trigger] shorter[j],
                );
            assert(is_filled(rows[i]) && is_filled(rows[j]));
        }
        if is_filled(rows.last()) {
            assert(is_filled(rows[last]));
        }
        assert forall|i: int| 0 <= i < rows.len() && is_filled(#[trigger] rows[i]) implies
            rows_with_content(rows) >= 1 by {
            if i < last {
                assert(is_filled(shorter[i]));
            }
        }
        assert forall|i: int, j: int|
            0 <= i < j < rows.len() && is_filled(#[trigger] rows[i]) && is_filled(
                #[trigger] rows[j],
            ) implies rows_with_content(rows) >= 2 by {
            assert(is_filled(shorter[i]));
            if j < last {
                assert(is_filled(shorter[j]));
            }
        }
    }
}

proof fn lemma_is_filled(row: Seq<Seq<char>>)
    ensures
        has_content(row) == is_filled(row),
{
    if has_content(row) {
        let i = choose|i: int| 0 <= i < row.len() && trimmed(#[trigger] row[i]).len() > 0;
        assert(trimmed(row[i]) != Seq::<char>::empty());
    }
    if is_filled(row) {
        let i = choose|i: int|
            0 <= i < row.len() && trimmed(#[trigger] row[i]) != Seq::<char>::empty();
        assert(trimmed(row[i]).len() > 0) by {
            if trimmed(row[i]).len() == 0 {
                assert(trimmed(row[i]) =~= Seq::<char>::empty());
            }
        }
    }
}

proof fn lemma_duplicates(rows: Seq<Seq<Seq<char>>>)
    ensures
        has_duplicate(rows[0]) == repeats_a_name(rows),
{
    let row = rows[0];
    if has_duplicate(row) {
        let (i, j) = choose|i: int, j: int|
            0 <= i < j < row.len() && trimmed(#[trigger] row[i]).len() > 0 && trimmed(row[i])
                == trimmed(#[trigger] row[j]);
        assert(trimmed(rows[0][i]) == trimmed(rows[0][j]));
    }
    if repeats_a_name(rows) {
        let (i, j) = choose|i: int, j: int|
            0 <= i < j < rows[0].len() && trimmed(#[trigger] rows[0][i]) == trimmed(
                #[trigger] rows[0][j],
            ) && trimmed(rows[0][i]) != Seq::<char>::empty();
        assert(trimmed(row[i]).len() > 0) by {
            if trimmed(row[i]).len() == 0 {
                assert(trimmed(row[i]) =~= Seq::<char>::empty());
            }
        }
    }
}

/// Two columns are two fields in some row.
proof fn lemma_two_columns(rows: Seq<Seq<Seq<char>>>)
    ensures
        widest(rows) >= 2 <==> exists|row: int|
            0 <= row < rows.len() && (#[trigger] rows[row]).len() >= 2,
    decreases rows.len(),
{
    if rows.len() > 0 {
        let shorter = rows.drop_last();
        lemma_two_columns(shorter);
        if widest(rows) >= 2 {
            if rows.last().len() >= 2 {
                assert(rows[rows.len() - 1].len() >= 2);
            } else {
                let row = choose|row: int|
                    0 <= row < shorter.len() && (#[trigger] shorter[row]).len() >= 2;
                assert(rows[row].len() >= 2);
            }
        }
        assert forall|row: int|
            0 <= row < rows.len() && (#[trigger] rows[row]).len() >= 2 implies widest(rows) >= 2 by {
            lemma_widest(rows, row);
        }
    }
}

/// Behind the last column there is nothing.
proof fn lemma_behind_columns(rows: Seq<Seq<Seq<char>>>, row: int, col: int)
    requires
        0 <= row < rows.len(),
        col < 0 || widest(rows) <= col,
    ensures
        kind_at(rows, row, col) == CsvCellKind::Empty,
{
    lemma_widest(rows, row);
    let field = field_of(rows[row], col);
    assert(field == Seq::<char>::empty());
    assert(trimmed_start(field) == field);
    assert(trimmed(field) == field);
}

/// The first row is taken for a header exactly if there is enough to tell by, it repeats no
/// name, a column below holds values of one kind, the first row holds a text, no fraction
/// and no date, and in no column a value of the kind that the column holds below.
///
/// It is taken for data if there is enough to tell by and it repeats a name, or some column
/// holds values of one kind and one of the other conditions fails.
pub proof fn headers_differ_from_the_data_below(rows: Seq<Seq<Seq<char>>>)
    requires
        rows.len() > 0,
    ensures
        header_detection(rows) == CsvHeaderDetection::Header <==> {
            &&& can_tell_header(rows)
            &&& !repeats_a_name(rows)
            &&& exists|col: int, kind: CsvCellKind| #[trigger] column_holds(rows, col, kind)
            &&& exists|col: int| #[trigger] kind_at(rows, 0, col) == CsvCellKind::Text
            &&& forall|col: int| #[trigger]
                kind_at(rows, 0, col) != CsvCellKind::Float && kind_at(rows, 0, col)
                    != CsvCellKind::Date
            &&& forall|col: int, kind: CsvCellKind| #[trigger]
                column_holds(rows, col, kind) ==> kind_at(rows, 0, col) != kind
        },
        header_detection(rows) == CsvHeaderDetection::NoHeader <==> can_tell_header(rows) && (
        repeats_a_name(rows) || ((exists|col: int, kind: CsvCellKind| #[trigger]
            column_holds(rows, col, kind)) && ((forall|col: int| #[trigger]
            kind_at(rows, 0, col) != CsvCellKind::Text) || (exists|col: int| #[trigger]
            kind_at(rows, 0, col) == CsvCellKind::Float || kind_at(rows, 0, col)
                == CsvCellKind::Date) || (exists|col: int, kind: CsvCellKind| #[trigger]
            column_holds(rows, col, kind) && kind_at(rows, 0, col) == kind)))),
{
    let header = rows[0];
    let data = rows.skip(1);
    let columns = widest(rows);
    lemma_two_columns(rows);
    lemma_rows_with_content(data);
    lemma_duplicates(rows);
    if rows_with_content(data) >= 2 {
        let (i, j) = choose|i: int, j: int|
            0 <= i < j < data.len() && is_filled(#[trigger] data[i]) && is_filled(
                #[trigger] data[j],
            );
        assert(is_filled(rows[i + 1]) && is_filled(rows[j + 1]));
    }
    assert forall|i: int, j: int|
        1 <= i < j < rows.len() && is_filled(#[trigger] rows[i]) && is_filled(
            #[trigger] rows[j],
        ) implies rows_with_content(data) >= 2 by {
        assert(is_filled(data[i - 1]) && is_filled(data[j - 1]));
    }
    assert(can_tell_header(rows) <==> columns >= 2 && rows_with_content(data) >= 2);
    assert forall|col: int, kind: CsvCellKind| #[trigger]
        column_holds(rows, col, kind) implies 0 <= col < columns && column_type(data, col) == Some(
        kind,
    ) by {
        lemma_column_type(rows, col, kind);
        let (i, j) = choose|i: int, j: int|
            1 <= i < j < rows.len() && #[trigger] kind_at(rows, i, col) == kind
                && #[trigger] kind_at(rows, j, col) == kind;
        if !(0 <= col < columns) {
            lemma_behind_columns(rows, i, col);
        }
    }
    assert forall|col: int|
        0 <= col < columns && #[trigger] column_type(data, col) is Some implies column_holds(
        rows,
        col,
        column_type(data, col)->0,
    ) by {
        lemma_column_type(rows, col, column_type(data, col)->0);
    }
    assert forall|col: int| #[trigger] kind_at(rows, 0, col) != CsvCellKind::Empty implies 0 <= col
        < columns by {
        if !(0 <= col < columns) {
            lemma_behind_columns(rows, 0, col);
        }
    }
    assert forall|col: int| #[trigger] kind_of(field_of(header, col)) == kind_at(rows, 0, col) by {}
    let typed = exists|col: int, kind: CsvCellKind| #[trigger] column_holds(rows, col, kind);
    let typed_in = exists|col: int| 0 <= col < columns && #[trigger] column_type(data, col) is Some;
    if typed {
        let (col, kind) = choose|col: int, kind: CsvCellKind| #[trigger]
            column_holds(rows, col, kind);
        assert(column_type(data, col) is Some);
    }
    if typed_in {
        let col = choose|col: int| 0 <= col < columns && #[trigger] column_type(data, col) is Some;
        assert(column_holds(rows, col, column_type(data, col)->0));
    }
    assert(typed == typed_in);
    let own = exists|col: int, kind: CsvCellKind| #[trigger]
        column_holds(rows, col, kind) && kind_at(rows, 0, col) == kind;
    let own_in = exists|col: int|
        0 <= col < columns && #[trigger] column_type(data, col) == Some(
            kind_of(field_of(header, col)),
        );
    if own {
        let (col, kind) = choose|col: int, kind: CsvCellKind| #[trigger]
            column_holds(rows, col, kind) && kind_at(rows, 0, col) == kind;
        assert(column_type(data, col) == Some(kind_of(field_of(header, col))));
    }
    if own_in {
        let col = choose|col: int|
            0 <= col < columns && #[trigger] column_type(data, col) == Some(
                kind_of(field_of(header, col)),
            );
        assert(column_holds(rows, col, column_type(data, col)->0));
        assert(kind_at(rows, 0, col) == column_type(data, col)->0);
    }
    assert(own == own_in);
    let texts = exists|col: int| #[trigger] kind_at(rows, 0, col) == CsvCellKind::Text;
    let texts_in = exists|col: int|
        0 <= col < columns && #[trigger] kind_of(field_of(header, col)) == CsvCellKind::Text;
    if texts {
        let col = choose|col: int| #[trigger] kind_at(rows, 0, col) == CsvCellKind::Text;
        assert(kind_of(field_of(header, col)) == CsvCellKind::Text);
    }
    if texts_in {
        let col = choose|col: int|
            0 <= col < columns && #[trigger] kind_of(field_of(header, col)) == CsvCellKind::Text;
        assert(kind_at(rows, 0, col) == CsvCellKind::Text);
    }
    assert(texts == texts_in);
    let odd = exists|col: int| #[trigger]
        kind_at(rows, 0, col) == CsvCellKind::Float || kind_at(rows, 0, col) == CsvCellKind::Date;
    let odd_in = exists|col: int|
        0 <= col < columns && (#[trigger] kind_of(field_of(header, col)) == CsvCellKind::Float
            || kind_of(field_of(header, col)) == CsvCellKind::Date);
    if odd {
        let col = choose|col: int| #[trigger]
            kind_at(rows, 0, col) == CsvCellKind::Float || kind_at(rows, 0, col)
                == CsvCellKind::Date;
        assert(kind_of(field_of(header, col)) == kind_at(rows, 0, col));
    }
    if odd_in {
        let col = choose|col: int|
            0 <= col < columns && (#[trigger] kind_of(field_of(header, col)) == CsvCellKind::Float
                || kind_of(field_of(header, col)) == CsvCellKind::Date);
        assert(kind_at(rows, 0, col) == kind_of(field_of(header, col)));
    }
    assert(odd == odd_in);
}

/// The length of the longest row of fields.
fn widest_field_row(rows: &Vec<Vec<String>>) -> (width: usize)
    ensures
        width == widest(field_rows_view(rows@)),
{
    let ghost views = field_rows_view(rows@);
    let mut width: usize = 0;
    let mut index: usize = 0;
    while index < rows.len()
        invariant
            index <= rows@.len(),
            views == field_rows_view(rows@),
            width == widest(views.take(index as int)),
        decreases rows@.len() - index,
    {
        assert(views.take(index + 1).drop_last() == views.take(index as int));
        if rows[index].len() > width {
            width = rows[index].len();
        }
        index += 1;
    }
    assert(views.take(index as int) == views);
    width
}

/// Whether the first row of CSV data is a header, as far as the rows show it.
pub fn detect_csv_header(rows: &Vec<Vec<String>>) -> (detection: CsvHeaderDetection)
    ensures
        detection == header_detection(field_rows_view(rows@)),
{
    if rows.len() == 0 {
        return CsvHeaderDetection::Unknown;
    }
    let ghost views = field_rows_view(rows@);
    let ghost header = views[0];
    let ghost data = views.skip(1);
    let col_count: usize = widest_field_row(rows);
    if col_count < 2 || non_empty_row_count(rows, 1) < 2 {
        return CsvHeaderDetection::Unknown;
    }
    if has_duplicate_non_empty_value(&rows[0]) {
        return CsvHeaderDetection::NoHeader;
    }
    let column_types = infer_csv_column_types(rows, 1, col_count);
    let mut has_type = false;
    let mut has_text = false;
    let mut has_fraction_or_date = false;
    let mut has_own_type = false;
    let mut col: usize = 0;
    while col < col_count
        invariant
            rows@.len() > 0,
            views == field_rows_view(rows@),
            header == views[0],
            data == views.skip(1),
            col <= col_count,
            column_types@ == Seq::new(col_count as nat, |col: int| column_type(data, col)),
            has_type == exists|c: int|
                0 <= c < col && #[trigger] column_type(data, c) is Some,
            has_text == exists|c: int|
                0 <= c < col && #[trigger] kind_of(field_of(header, c)) == CsvCellKind::Text,
            has_fraction_or_date == exists|c: int|
                0 <= c < col && (#[trigger] kind_of(field_of(header, c)) == CsvCellKind::Float
                    || kind_of(field_of(header, c)) == CsvCellKind::Date),
            has_own_type == exists|c: int|
                0 <= c < col && #[trigger] column_type(data, c) == Some(
                    kind_of(field_of(header, c)),
                ),
        decreases col_count - col,
    {
        let kind = csv_cell_kind(cell_value(&rows[0], col));
        let column = column_types[col];
        proof {
            assert(column == column_type(data, col as int));
            assert(kind == kind_of(field_of(header, col as int)));
        }
        if let Some(column) = column {
            has_type = true;
            if column == kind {
                has_own_type = true;
            }
        }
        if kind == CsvCellKind::Text {
            has_text = true;
        }
        if kind == CsvCellKind::Float || kind == CsvCellKind::Date {
            has_fraction_or_date = true;
        }
        col += 1;
    }
    if !has_type {
        return CsvHeaderDetection::Unknown;
    }
    if !has_text || has_fraction_or_date || has_own_type {
        return CsvHeaderDetection::NoHeader;
    }
    CsvHeaderDetection::Header
}

/// An index of the rows of a CSV file.
pub struct CsvIndex {
    /// The offsets of the bytes at which the rows begin.
    pub row_offsets: Vec<u64>,
    pub col_count: usize,
    pub header_detection: CsvHeaderDetection,
}

/// The mathematical content of a [`CsvIndex`].
#[verifier::ext_equal]
pub struct CsvIndexView {
    pub row_offsets: Seq<u64>,
    pub col_count: nat,
    pub header_detection: CsvHeaderDetection,
}

impl View for CsvIndex {
    type V = CsvIndexView;

    open spec fn view(&self) -> CsvIndexView {
        CsvIndexView {
            row_offsets: self.row_offsets@,
            col_count: self.col_count as nat,
            header_detection: self.header_detection,
        }
    }
}

/// The fields of records.
pub open spec fn record_fields(records: Seq<CsvRecordView>) -> Seq<Seq<Seq<char>>> {
    records.map_values(|record: CsvRecordView| record.fields)
}

/// The first records, as many as are looked at to find a header.
pub open spec fn header_sample(records: Seq<CsvRecordView>) -> Seq<CsvRecordView> {
    if records.len() <= CSV_HEADER_SAMPLE_DATA_ROWS + 1 {
        records
    } else {
        records.take(CSV_HEADER_SAMPLE_DATA_ROWS + 1)
    }
}

/// The index of records.
pub open spec fn index_of(records: Seq<CsvRecordView>) -> CsvIndexView {
    CsvIndexView {
        row_offsets: records.map_values(|record: CsvRecordView| record.position),
        col_count: widest(record_fields(records)),
        header_detection: header_detection(record_fields(header_sample(records))),
    }
}

/// A copy of a list of texts.
fn copy_strings(texts: &Vec<String>) -> (copy: Vec<String>)
    ensures
        strings_view(copy@) == strings_view(texts@),
{
    let ghost views = strings_view(texts@);
    let mut copy: Vec<String> = Vec::new();
    let mut index: usize = 0;
    assert(strings_view(copy@) =~= views.take(0));
    while index < texts.len()
        invariant
            index <= texts@.len(),
            views == strings_view(texts@),
            strings_view(copy@) == views.take(index as int),
        decreases texts@.len() - index,
    {
        let text = texts[index].clone();
        let ghost before = copy@;
        copy.push(text);
        assert(strings_view(copy@) =~= strings_view(before).push(text@));
        index += 1;
        assert(strings_view(copy@) =~= views.take(index as int));
    }
    assert(views.take(index as int) == views);
    copy
}

/// Indexes records.
pub fn index_records(records: &Vec<CsvRecord>) -> (index: CsvIndex)
    ensures
        index@ == index_of(records_view(records@)),
{
    let ghost views = records_view(records@);
    let ghost fields = record_fields(views);
    let ghost positions = views.map_values(|record: CsvRecordView| record.position);
    let ghost sampled = record_fields(header_sample(views));
    let mut row_offsets: Vec<u64> = Vec::new();
    let mut sample: Vec<Vec<String>> = Vec::new();
    let mut col_count: usize = 0;
    let mut index: usize = 0;
    assert(field_rows_view(sample@) =~= sampled.take(0));
    while index < records.len()
        invariant
            index <= records@.len(),
            views == records_view(records@),
            fields == record_fields(views),
            positions == views.map_values(|record: CsvRecordView| record.position),
            sampled == record_fields(header_sample(views)),
            row_offsets@ == positions.take(index as int),
            col_count == widest(fields.take(index as int)),
            field_rows_view(sample@) == sampled.take(if index < sampled.len() {
                index as int
            } else {
                sampled.len() as int
            }),
        decreases records@.len() - index,
    {
        let record = &records[index];
        proof {
            assert(views[index as int] == record@);
            assert(fields.take(index + 1).drop_last() == fields.take(index as int));
            assert(fields.take(index + 1).last() == record@.fields);
        }
        row_offsets.push(record.position);
        if record.fields.len() > col_count {
            col_count = record.fields.len();
        }
        if index < CSV_HEADER_SAMPLE_DATA_ROWS + 1 {
            let ghost before = sample@;
            let copy = copy_strings(&record.fields);
            sample.push(copy);
            assert(field_rows_view(sample@) =~= field_rows_view(before).push(record@.fields));
            assert(sampled[index as int] == record@.fields);
        }
        index += 1;
        assert(row_offsets@ =~= positions.take(index as int));
        assert(field_rows_view(sample@) =~= sampled.take(if index < sampled.len() {
            index as int
        } else {
            sampled.len() as int
        }));
    }
    assert(positions.take(index as int) == positions);
    assert(fields.take(index as int) == fields);
    assert(sampled.take(sampled.len() as int) == sampled);
    let header_detection = detect_csv_header(&sample);
    CsvIndex { row_offsets, col_count, header_detection }
}

/// The index of the CSV data that some bytes are, or why it cannot be read.
pub open spec fn csv_index_of(bytes: Seq<u8>) -> Result<CsvIndexView, Seq<char>> {
    match all_records(csv_items(bytes)) {
        Ok(records) => Ok(index_of(records)),
        Err(message) => Err(message),
    }
}

/// The rows and columns of a CSV sheet that stay in view: a header row does.
pub open spec fn freeze_for(detection: CsvHeaderDetection) -> SheetFreeze {
    if detection == CsvHeaderDetection::Header {
        SheetFreeze { rows: 1, columns: 0 }
    } else {
        SheetFreeze { rows: 0, columns: 0 }
    }
}

impl CsvIndex {
    /// Indexes the CSV data that some bytes are. The rows that the index leads to
    /// are the rows of the data, but for those that a byte order mark stands before,
    /// behind the start of the data.
    pub fn new(bytes: &[u8]) -> (index: Result<CsvIndex, String>)
        ensures
            match index {
                Ok(index) => csv_index_of(bytes@) == Ok::<_, Seq<char>>(index@),
                Err(message) => csv_index_of(bytes@) == Err::<CsvIndexView, _>(message@),
            },
            index is Ok ==> forall|row: int|
                0 <= row < index->Ok_0@.row_offsets.len() && !has_inner_mark(
                    bytes@,
                    index->Ok_0@.row_offsets[row],
                ) ==> #[trigger] indexed_row(index->Ok_0@, bytes@, row) == Ok::<_, Seq<char>>(
                    record_cells(all_records(csv_items(bytes@))->Ok_0[row].fields),
                ),
            index is Ok ==> within_data(index->Ok_0@, bytes@),
    {
        match read_records(bytes) {
            Ok(records) => {
                let index = index_records(&records);
                proof {
                    assert forall|row: int|
                        0 <= row < index@.row_offsets.len() implies #[trigger] index@.row_offsets[row]
                        <= bytes@.len() && (!has_inner_mark(bytes@, index@.row_offsets[row])
                        ==> indexed_row(index@, bytes@, row) == Ok::<_, Seq<char>>(
                        record_cells(records_view(records@)[row].fields),
                    )) by {
                        let record = records@[row];
                        assert(position_leads_to_record(
                            bytes@,
                            Ok::<CsvRecordView, Seq<char>>(record@),
                        ));
                        assert(index@.row_offsets[row] == record@.position);
                    }
                    assert forall|row: int|
                        0 <= row < index@.row_offsets.len() && !has_inner_mark(
                            bytes@,
                            index@.row_offsets[row],
                        ) implies #[trigger] indexed_row(index@, bytes@, row) == Ok::<_, Seq<char>>(
                        record_cells(records_view(records@)[row].fields),
                    ) by {
                        assert(index@.row_offsets[row] <= bytes@.len());
                    }
                }
                Ok(index)
            },
            Err(message) => Err(message),
        }
    }

    /// How many rows there are.
    pub fn row_count(&self) -> (count: usize)
        ensures
            count == self@.row_offsets.len(),
    {
        self.row_offsets.len()
    }

    /// The offset of the byte at which a row begins, where there is such a row.
    pub fn row_offset(&self, row: usize) -> (offset: Option<u64>)
        ensures
            offset == if row < self@.row_offsets.len() {
                Some(self@.row_offsets[row as int])
            } else {
                None
            },
    {
        if row < self.row_offsets.len() {
            Some(self.row_offsets[row])
        } else {
            None
        }
    }

    /// The rows and columns that stay in view.
    pub fn freeze(&self) -> (freeze: SheetFreeze)
        ensures
            freeze == freeze_for(self@.header_detection),
    {
        match self.header_detection {
            CsvHeaderDetection::Header => SheetFreeze { rows: 1, columns: 0 },
            CsvHeaderDetection::NoHeader => SheetFreeze::default(),
            CsvHeaderDetection::Unknown => SheetFreeze::default(),
        }
    }
}

/// The index of records has an offset for each record in order, is as wide as the longest
/// one, and tells a header by the first records alone. A header, and only a header, stays in
/// view.
pub proof fn indexes_follow_the_records(records: Seq<CsvRecordView>, row: int)
    requires
        0 <= row < records.len(),
    ensures
        index_of(records).row_offsets.len() == records.len(),
        index_of(records).row_offsets[row] == records[row].position,
        records[row].fields.len() <= index_of(records).col_count,
        exists|longest: int|
            0 <= longest < records.len() && (#[trigger] records[longest]).fields.len()
                == index_of(records).col_count,
        records.len() <= 21 ==> index_of(records).header_detection == header_detection(
            records.map_values(|record: CsvRecordView| record.fields),
        ),
        index_of(records).header_detection == index_of(
            records.take(if records.len() <= 21 {
                records.len() as int
            } else {
                21
            }),
        ).header_detection,
        freeze_for(index_of(records).header_detection).columns == 0,
        freeze_for(index_of(records).header_detection).rows == 1
            <==> index_of(records).header_detection == CsvHeaderDetection::Header,
        freeze_for(index_of(records).header_detection).rows <= 1,
{
    let fields = record_fields(records);
    lemma_widest(fields, row);
    lemma_widest_is_met(fields);
    let longest = choose|longest: int|
        0 <= longest < fields.len() && (#[trigger] fields[longest]).len() == widest(fields);
    assert(records[longest].fields.len() == index_of(records).col_count);
    if records.len() <= 21 {
        assert(records.take(records.len() as int) == records);
    } else {
        let sample = records.take(21);
        assert(header_sample(sample) == sample);
    }
}

/// Some row is as long as the longest.
proof fn lemma_widest_is_met(rows: Seq<Seq<Seq<char>>>)
    requires
        rows.len() > 0,
    ensures
        exists|row: int| 0 <= row < rows.len() && (#[trigger] rows[row]).len() == widest(rows),
    decreases rows.len(),
{
    let shorter = rows.drop_last();
    let last = rows.len() - 1;
    if rows.last().len() > widest(shorter) || shorter.len() == 0 {
        assert(rows[last].len() == widest(rows));
    } else {
        lemma_widest_is_met(shorter);
        let row = choose|row: int|
            0 <= row < shorter.len() && (#[trigger] shorter[row]).len() == widest(shorter);
        assert(rows[row].len() == widest(rows));
    }
}

/// A row of CSV data has a cell for each field, in order, that displays the field as it is,
/// without a formula and without a format.
pub proof fn fields_are_displayed_as_they_are(fields: Seq<Seq<char>>, col: int)
    requires
        0 <= col < fields.len(),
    ensures
        record_cells(fields).len() == fields.len(),
        record_cells(fields)[col].value == fields[col],
        record_cells(fields)[col].formula is None,
        record_cells(fields)[col].display_format is None,
        record_cells(fields)[col].raw_value == CellRawValue::Empty,
        !record_cells(fields)[col].formula_value_was_uncached,
        !record_cells(fields)[col].style.bold,
        record_cells(fields)[col].style.text_color is None,
        record_cells(fields)[col].style.background_color is None,
{
}

/// A cell that holds a text and nothing else.
pub open spec fn text_cell(text: Seq<char>) -> CellView {
    CellView { value: text, ..empty_cell() }
}

/// The cells of a record.
pub open spec fn record_cells(fields: Seq<Seq<char>>) -> Seq<CellView> {
    fields.map_values(|field: Seq<char>| text_cell(field))
}

/// Makes the cells of a record.
pub fn cells_of_fields(fields: &Vec<String>) -> (cells: Vec<CellData>)
    ensures
        cells_view(cells@) == record_cells(strings_view(fields@)),
{
    let ghost expected = record_cells(strings_view(fields@));
    let mut cells: Vec<CellData> = Vec::new();
    let mut index: usize = 0;
    assert(cells_view(cells@) =~= expected.take(0));
    while index < fields.len()
        invariant
            index <= fields@.len(),
            expected == record_cells(strings_view(fields@)),
            cells_view(cells@) == expected.take(index as int),
        decreases fields@.len() - index,
    {
        let mut cell = CellData::default();
        cell.value = fields[index].clone();
        let ghost before = cells@;
        cells.push(cell);
        assert(cells_view(cells@) =~= cells_view(before).push(text_cell(fields@[index as int]@)));
        index += 1;
        assert(cells_view(cells@) =~= expected.take(index as int));
    }
    assert(expected.take(index as int) == expected);
    cells
}

/// The cells of the first record of CSV data; none where there is no record.
pub open spec fn first_row_of(bytes: Seq<u8>) -> Result<Seq<CellView>, Seq<char>> {
    if csv_items(bytes).len() == 0 {
        Ok(Seq::empty())
    } else {
        match csv_items(bytes)[0] {
            Ok(record) => Ok(record_cells(record.fields)),
            Err(message) => Err(message),
        }
    }
}

/// Reads the row that CSV data begins with.
pub fn read_row(bytes: &[u8]) -> (cells: Result<Vec<CellData>, String>)
    ensures
        match cells {
            Ok(cells) => first_row_of(bytes@) == Ok::<_, Seq<char>>(cells_view(cells@)),
            Err(message) => first_row_of(bytes@) == Err::<Seq<CellView>, _>(message@),
        },
{
    let mut reader = csv_reader(bytes);
    match read_record(&mut reader) {
        None => {
            let cells: Vec<CellData> = Vec::new();
            assert(cells_view(cells@) =~= Seq::<CellView>::empty());
            Ok(cells)
        },
        Some(Ok(record)) => Ok(cells_of_fields(&record.fields)),
        Some(Err(message)) => Err(message),
    }
}

/// Reads all rows of CSV data.
pub fn read_rows(bytes: &[u8]) -> (rows: Result<Vec<Vec<CellData>>, String>)
    ensures
        match (rows, all_records(csv_items(bytes@))) {
            (Ok(rows), Ok(records)) => cell_rows_view(rows@) == records.map_values(
                |record: CsvRecordView| record_cells(record.fields),
            ),
            (Err(message), Err(expected)) => message@ == expected,
            _ => false,
        },
{
    let records = match read_records(bytes) {
        Ok(records) => records,
        Err(message) => {
            return Err(message);
        },
    };
    let ghost expected = records_view(records@).map_values(
        |record: CsvRecordView| record_cells(record.fields),
    );
    let mut rows: Vec<Vec<CellData>> = Vec::new();
    let mut index: usize = 0;
    assert(cell_rows_view(rows@) =~= expected.take(0));
    while index < records.len()
        invariant
            index <= records@.len(),
            expected == records_view(records@).map_values(
                |record: CsvRecordView| record_cells(record.fields),
            ),
            cell_rows_view(rows@) == expected.take(index as int),
        decreases records@.len() - index,
    {
        let cells = cells_of_fields(&records[index].fields);
        let ghost before = rows@;
        rows.push(cells);
        assert(cell_rows_view(rows@) =~= cell_rows_view(before).push(cells_view(cells@)));
        assert(expected[index as int] == record_cells(records@[index as int]@.fields));
        index += 1;
        assert(cell_rows_view(rows@) =~= expected.take(index as int));
    }
    assert(expected.take(index as int) == expected);
    Ok(rows)
}

/// The cells of a row that an index leads to: none past the last row.
pub open spec fn indexed_row(index: CsvIndexView, bytes: Seq<u8>, row: int) -> Result<
    Seq<CellView>,
    Seq<char>,
> {
    if row < index.row_offsets.len() {
        first_row_of(bytes.skip(index.row_offsets[row] as int))
    } else {
        Ok(Seq::empty())
    }
}

/// Whether all offsets of an index lie within the data.
pub open spec fn within_data(index: CsvIndexView, bytes: Seq<u8>) -> bool {
    forall|row: int|
        0 <= row < index.row_offsets.len() ==> #[trigger] index.row_offsets[row] <= bytes.len()
}

/// Whether a cache holds rows only as the data has them.
pub open spec fn holds_rows_of(cache: RowCacheView, index: CsvIndexView, bytes: Seq<u8>) -> bool {
    forall|row: usize| #[trigger]
        cache.rows.contains_key(row) ==> indexed_row(index, bytes, row as int) == Ok::<
            _,
            Seq<char>,
        >(cache.rows[row])
}

/// The cache once a row was asked for: a row that was read is kept in it.
pub open spec fn cache_after_row(
    cache: RowCacheView,
    index: CsvIndexView,
    bytes: Seq<u8>,
    row: usize,
) -> RowCacheView {
    match indexed_row(index, bytes, row as int) {
        Ok(cells) => if !cache.rows.contains_key(row) && row < index.row_offsets.len() {
            cache.inserted(row, cells)
        } else {
            cache
        },
        Err(_) => cache,
    }
}

/// Reads a row from the cache, or from the data and then into the cache. The row
/// is the same either way.
pub fn load_row(index: &CsvIndex, cache: &mut RowCache, bytes: &[u8], row: usize) -> (cells: Result<
    Vec<CellData>,
    String,
>)
    requires
        within_data(index@, bytes@),
        old(cache)@.wf(),
        holds_rows_of(old(cache)@, index@, bytes@),
    ensures
        match cells {
            Ok(cells) => indexed_row(index@, bytes@, row as int) == Ok::<_, Seq<char>>(
                cells_view(cells@),
            ),
            Err(message) => indexed_row(index@, bytes@, row as int) == Err::<Seq<CellView>, _>(
                message@,
            ),
        },
        final(cache)@.wf(),
        holds_rows_of(final(cache)@, index@, bytes@),
        final(cache)@ == cache_after_row(old(cache)@, index@, bytes@, row),
{
    if let Some(cells) = cache.get(row) {
        return Ok(cells);
    }
    let offset: u64 = match index.row_offset(row) {
        Some(offset) => offset,
        None => {
            let cells: Vec<CellData> = Vec::new();
            assert(cells_view(cells@) =~= Seq::<CellView>::empty());
            return Ok(cells);
        },
    };
    assert(index@.row_offsets[row as int] <= bytes@.len());
    let length: usize = bytes.len();
    let rest = vstd::slice::slice_subrange(bytes, offset as usize, length);
    assert(rest@ =~= bytes@.skip(offset as int));
    match read_row(rest) {
        Ok(cells) => {
            let copy = copy_cells(&cells);
            let ghost before = cache@;
            cache.insert(row, copy);
            assert forall|other: usize| #[trigger] cache@.rows.contains_key(other) implies indexed_row(
                index@,
                bytes@,
                other as int,
            ) == Ok::<_, Seq<char>>(cache@.rows[other]) by {
                assert(other == row || before.rows.contains_key(other));
            }
            Ok(cells)
        },
        Err(message) => Err(message),
    }
}

/// The cell of a row that is there, and else an empty one.
pub open spec fn cell_in_row(cells: Result<Seq<CellView>, Seq<char>>, col: int) -> CellView {
    match cells {
        Ok(cells) => if col < cells.len() {
            cells[col]
        } else {
            empty_cell()
        },
        Err(_) => empty_cell(),
    }
}

/// The cell at a position; an empty one where there is none or where the row
/// cannot be read.
pub fn load_cell(
    index: &CsvIndex,
    cache: &mut RowCache,
    bytes: &[u8],
    row: usize,
    col: usize,
) -> (cell: CellData)
    requires
        within_data(index@, bytes@),
        old(cache)@.wf(),
        holds_rows_of(old(cache)@, index@, bytes@),
    ensures
        cell@ == cell_in_row(indexed_row(index@, bytes@, row as int), col as int),
        final(cache)@.wf(),
        holds_rows_of(final(cache)@, index@, bytes@),
        final(cache)@ == cache_after_row(old(cache)@, index@, bytes@, row),
{
    match load_row(index, cache, bytes, row) {
        Ok(cells) => if col < cells.len() {
            assert(cells_view(cells@)[col as int] == cells@[col as int]@);
            cells[col].clone()
        } else {
            CellData::default()
        },
        Err(_) => CellData::default(),
    }
}

/// The kind of a field tells what it looks like, white space around it aside. A whole number is
/// digits behind at most one sign; a date has digits and two hyphens at their places; a truth
/// value is one of two words; a fraction is what reads as a number; only these differ from
/// texts.
pub proof fn kinds_tell_what_a_field_looks_like(text: Seq<char>)
    ensures
        ({
            let value = trimmed(text);
            let kind = kind_of(text);
            let signed = value.len() > 1 && (value[0] == '+' || value[0] == '-');
            &&& kind == CsvCellKind::Int <==> value.len() > 0 && forall|i: int|
                (if signed {
                    1
                } else {
                    0int
                }) <= i < value.len() ==> '0' <= #[trigger] value[i] <= '9'
            &&& kind == CsvCellKind::Bool <==> ascii_lowered(value) == seq!['t', 'r', 'u', 'e']
                || ascii_lowered(value) == seq!['f', 'a', 'l', 's', 'e']
            &&& kind == CsvCellKind::Date ==> value.len() >= 10 && value[4] == '-' && value[7]
                == '-' && '0' <= value[0] <= '9' && '0' <= value[1] <= '9' && '0' <= value[2] <= '9'
                && '0' <= value[3] <= '9' && '0' <= value[5] <= '9' && '0' <= value[6] <= '9' && '0'
                <= value[8] <= '9' && '0' <= value[9] <= '9'
            &&& kind == CsvCellKind::Float ==> is_float_literal(value)
            &&& is_float_literal(value) ==> kind == CsvCellKind::Float || kind == CsvCellKind::Int
        }),
{
    let value = trimmed(text);
    let lowered = ascii_lowered(value);
    reveal_strlit("true");
    reveal_strlit("false");
    assert("true"@ =~= seq!['t', 'r', 'u', 'e']);
    assert("false"@ =~= seq!['f', 'a', 'l', 's', 'e']);
    let rest = unsigned_part(value);
    let signed = value.len() > 1 && (value[0] == '+' || value[0] == '-');
    let from: int = if signed {
        1
    } else {
        0
    };
    assert forall|i: int| from <= i < value.len() implies value[i] == rest[i - from] by {}
    if all_digits(rest, 10) {
        assert forall|i: int| from <= i < value.len() implies '0' <= #[trigger] value[i]
            <= '9' by {
            assert(is_digit_of(rest[i - from], 10));
        }
        if value.len() > 0 {
            lemma_no_digit_in_words(value, value.len() - 1);
        }
    }
    if value.len() > 0 && (forall|i: int|
        from <= i < value.len() ==> '0' <= #[trigger] value[i] <= '9') {
        assert forall|i: int| 0 <= i < rest.len() implies is_digit_of(#[trigger] rest[i], 10) by {
            assert(value[i + from] == rest[i]);
        }
        lemma_no_digit_in_words(value, value.len() - 1);
    }
    if begins_like_date(value) {
        assert(is_digit_of(value[0], 10) && is_digit_of(value[1], 10) && is_digit_of(value[2], 10)
            && is_digit_of(value[3], 10) && is_digit_of(value[5], 10) && is_digit_of(value[6], 10)
            && is_digit_of(value[8], 10) && is_digit_of(value[9], 10));
    }
    if is_float_literal(value) {
        lemma_floats_are_no_truth_words(value);
    }
}

proof fn lemma_no_digit_in_words(value: Seq<char>, index: int)
    requires
        0 <= index < value.len(),
        '0' <= value[index] <= '9',
    ensures
        ascii_lowered(value) != "true"@,
        ascii_lowered(value) != "false"@,
{
    lowering_changes_capitals_only(value, index);
    reveal_strlit("true");
    reveal_strlit("false");
    let lowered = ascii_lowered(value);
    assert('0' <= lowered[index] <= '9');
}

proof fn lemma_floats_are_no_truth_words(value: Seq<char>)
    requires
        is_float_literal(value),
    ensures
        ascii_lowered(value) != "true"@,
        ascii_lowered(value) != "false"@,
        value.len() > 0,
{
    reveal_strlit("true");
    reveal_strlit("false");
    reveal_strlit("inf");
    reveal_strlit("infinity");
    reveal_strlit("nan");
    let body = without_sign(value);
    if value.len() > 0 {
        lowering_changes_capitals_only(value, 0);
    } else {
        assert(body == value);
        assert(ascii_lowered(body).len() == 0);
        assert(digit_run_end(body, 0) == 0);
    }
    let lowered = ascii_lowered(value);
    if lowered == "true"@ || lowered == "false"@ {
        assert(lowered[0] == 't' || lowered[0] == 'f');
        assert(body == value);
        assert("inf"@[0] == 'i' && "infinity"@[0] == 'i' && "nan"@[0] == 'n');
        assert(!is_digit_of(value[0], 10) && value[0] != '.');
        assert(digit_run_end(value, 0) == 0);
        assert(!is_decimal_float(value));
    }
}

/// A cell of a row is the one in its column; a row that is too short, or that cannot be read,
/// displays nothing there.
pub proof fn cells_stand_in_their_columns(cells: Seq<CellView>, message: Seq<char>, col: int)
    requires
        0 <= col,
    ensures
        col < cells.len() ==> cell_in_row(Ok::<Seq<CellView>, Seq<char>>(cells), col) == cells[col],
        col >= cells.len() ==> cell_in_row(Ok::<Seq<CellView>, Seq<char>>(cells), col).value
            == Seq::<char>::empty(),
        cell_in_row(Err::<Seq<CellView>, Seq<char>>(message), col).value == Seq::<char>::empty(),
{
}

/// A row that was loaded is kept with the cells that were read; a row that is not in the data,
/// or could not be read, leaves the kept rows alone, and so does one that is kept already.
pub proof fn loaded_rows_are_kept(
    cache: RowCacheView,
    index: CsvIndexView,
    bytes: Seq<u8>,
    row: usize,
)
    requires
        cache.wf(),
        cache.capacity > 0,
        holds_rows_of(cache, index, bytes),
    ensures
        ({
            let after = cache_after_row(cache, index, bytes, row);
            let read = indexed_row(index, bytes, row as int);
            &&& read is Ok && row < index.row_offsets.len() ==> after.rows.contains_key(row)
                && after.rows[row] == read->Ok_0
            &&& read is Err || row >= index.row_offsets.len() || cache.rows.contains_key(row)
                ==> after == cache
        }),
{
    if let Ok(cells) = indexed_row(index, bytes, row as int) {
        inserting_evicts_the_oldest_row_at_most(cache, row, cells);
    }
}

} // verus!
