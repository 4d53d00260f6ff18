//! What the parts of an XLSX package may hold so that its cell data can be read.
//!
//! The reader of the cell data counts rows and columns in 32 bits, sets memory aside for
//! what a part announces, and counts the brackets of a number format in 8 bits, all
//! without a test. So the references, counts and formats that it comes across are tested
//! beforehand.

use vstd::prelude::*;

use crate::numbers::{digits_value, parse_usize, parsed_up_to, without_plus};
use crate::pairs::{keys_view, met_value, value_met};
use crate::references::{column_number, is_letter, reference_parts, row_digits};
use crate::text::{
    find_from, first_index, lemma_first_index, lemma_first_index_is, same_text, to_chars,
};
use crate::xml::{unescape, xml_unescaped, XmlEvent, XmlEventView, XmlTag, XmlTagView};

verus! {

/// How many bytes one of the things takes at most that memory is set aside for.
pub const ENTRY_BYTES: u128 = 64;

/// Whether memory can be set aside for so many things at once.
pub open spec fn count_fits(count: nat) -> bool {
    count * ENTRY_BYTES <= isize::MAX
}

/// The number that a text of nothing but digits is, if it fits the machine's word.
pub open spec fn announced(text: Seq<char>) -> Option<nat> {
    if without_plus(text) == text {
        parsed_up_to(text, 10, usize::MAX as nat)
    } else {
        None
    }
}

/// Whether memory can be set aside for a number of things and one more, where a text is a
/// number.
pub open spec fn announced_fits(text: Seq<char>) -> bool {
    announced(text) matches Some(count) ==> count_fits(count + 1)
}

/// How many letters a text begins with.
pub open spec fn leading_letters(text: Seq<char>) -> nat
    decreases text.len(),
{
    if text.len() > 0 && is_letter(text[0]) {
        1 + leading_letters(text.skip(1))
    } else {
        0
    }
}

/// How many digits a text begins with.
pub open spec fn leading_digits(text: Seq<char>) -> nat
    decreases text.len(),
{
    if text.len() > 0 && '0' <= text[0] <= '9' {
        1 + leading_digits(text.skip(1))
    } else {
        0
    }
}

/// The column number that the letters in front of a text spell, counted from one.
pub open spec fn column_in_front(text: Seq<char>) -> nat {
    column_number(text.take(leading_letters(text) as int))
}

/// The row number that the digits behind the letters in front of a text spell.
pub open spec fn row_in_front(text: Seq<char>) -> nat {
    let rest = text.skip(leading_letters(text) as int);
    digits_value(row_digits(rest.take(leading_digits(rest) as int)), 10)
}

/// Whether a text is the reference of a cell: letters, and then digits that are not zero.
pub open spec fn is_cell(text: Seq<char>) -> bool {
    let letters = leading_letters(text);
    let digits = leading_digits(text.skip(letters as int));
    letters > 0 && letters + digits == text.len() && row_in_front(text) > 0
}

/// Whether the column and the row of a cell reference fit 32 bits.
pub open spec fn reference_fits(text: Seq<char>) -> bool {
    column_in_front(text) <= u32::MAX && row_in_front(text) <= u32::MAX
}

/// Whether the corners that a text has, with colons between them, fit 32 bits. What follows
/// something that is no cell is not looked at.
pub open spec fn corners_fit(text: Seq<char>) -> bool
    decreases text.len(),
{
    match first_index(text, ':') {
        Some(index) => if 0 <= index < text.len() {
            let corner = text.take(index);
            reference_fits(corner) && (is_cell(corner) ==> corners_fit(text.skip(index + 1)))
        } else {
            true
        },
        None => reference_fits(text),
    }
}

/// Whether the second corner of a range does not lie before the first, where there are two.
pub open spec fn corners_in_order(text: Seq<char>) -> bool {
    first_index(text, ':') matches Some(index) ==> {
        let first = text.take(index);
        let second = text.skip(index + 1);
        is_cell(first) && is_cell(second) ==> column_in_front(first) <= column_in_front(second)
            && row_in_front(first) <= row_in_front(second)
    }
}

/// Whether the corners of a range reference fit 32 bits and come in order.
pub open spec fn range_fits(text: Seq<char>) -> bool {
    corners_fit(text) && corners_in_order(text)
}

/// How far a number format is read: whether the next character is taken as it is, whether
/// a quotation is open, and how many brackets are.
#[verifier::ext_equal]
pub struct FormatReading {
    pub escaped: bool,
    pub quoted: bool,
    pub brackets: nat,
    /// Whether the first format has ended.
    pub ended: bool,
    /// Whether more brackets were open than 8 bits can count.
    pub overflown: bool,
}

impl FormatReading {
    pub open spec fn initial() -> Self {
        FormatReading {
            escaped: false,
            quoted: false,
            brackets: 0,
            ended: false,
            overflown: false,
        }
    }

    /// The reading behind another character.
    pub open spec fn after(self, ch: char) -> Self {
        if self.ended {
            self
        } else if self.escaped {
            FormatReading { escaped: false, ..self }
        } else if ch == '_' || ch == '\\' || ch == '*' {
            FormatReading { escaped: true, ..self }
        } else if ch == '"' {
            FormatReading { quoted: !self.quoted, ..self }
        } else if self.quoted {
            self
        } else if ch == ';' {
            FormatReading { ended: true, ..self }
        } else if ch == '[' {
            FormatReading {
                brackets: self.brackets + 1,
                overflown: self.overflown || self.brackets >= u8::MAX,
                ..self
            }
        } else if ch == ']' && self.brackets > 0 {
            FormatReading { brackets: (self.brackets - 1) as nat, ..self }
        } else {
            self
        }
    }
}

/// The reading behind a number format.
pub open spec fn format_reading(format: Seq<char>) -> FormatReading
    decreases format.len(),
{
    if format.len() == 0 {
        FormatReading::initial()
    } else {
        format_reading(format.drop_last()).after(format.last())
    }
}

/// Whether a number format, as it stands in an attribute, has no more brackets open at once
/// than 8 bits can count.
pub open spec fn format_fits(raw: Seq<char>) -> bool {
    xml_unescaped(raw) matches Ok(format) ==> !format_reading(format).overflown
}

/// The tag of an event that begins an element.
pub open spec fn begun(event: XmlEventView) -> Option<XmlTagView> {
    match event {
        XmlEventView::Start(tag) => Some(tag),
        XmlEventView::Empty(tag) => Some(tag),
        _ => None,
    }
}

/// Whether an event ends an element of a name.
pub open spec fn ends(event: XmlEventView, name: Seq<char>) -> bool {
    match event {
        XmlEventView::Empty(tag) => tag.local_name == name,
        XmlEventView::End(local_name) => local_name == name,
        _ => false,
    }
}

/// Whether memory can be set aside for the strings that the table of shared strings
/// announces. Only its first tag is looked at.
pub open spec fn strings_fit(events: Seq<XmlEventView>) -> bool
    decreases events.len(),
{
    if events.len() == 0 {
        true
    } else {
        match begun(events[0]) {
            Some(tag) if tag.local_name == "sst"@ => met_value(
                tag.attributes,
                seq!["uniqueCount"@],
                "uniqueCount"@,
            ) matches Some(count) ==> announced_fits(count),
            _ => strings_fit(events.skip(1)),
        }
    }
}

/// Whether a tag in the list of number formats fits.
pub open spec fn format_tag_fits(tag: XmlTagView) -> bool {
    tag.local_name == "numFmt"@ ==> {
        let keys = seq!["numFmtId"@, "formatCode"@];
        (met_value(tag.attributes, keys, "numFmtId"@) is Some && met_value(
            tag.attributes,
            keys,
            "formatCode"@,
        ) is Some) ==> format_fits(met_value(tag.attributes, keys, "formatCode"@)->0)
    }
}

/// Whether events stop inside of the list of number formats.
pub open spec fn in_formats(events: Seq<XmlEventView>) -> bool
    decreases events.len(),
{
    if events.len() == 0 {
        false
    } else if ends(events.last(), "numFmts"@) {
        false
    } else {
        ||| in_formats(events.drop_last())
        ||| begun(events.last()) matches Some(tag) && tag.local_name == "numFmts"@
    }
}

/// Whether the number formats of a style sheet fit.
pub open spec fn styles_fit(events: Seq<XmlEventView>) -> bool {
    forall|i: int|
        0 <= i < events.len() && in_formats(#[trigger] events.take(i)) ==> (begun(
            events[i],
        ) matches Some(tag) ==> format_tag_fits(tag))
}

/// How far the cells of a sheet reach at most, as far as it was read: no row and no
/// column, counted from zero, lies beyond.
#[verifier::ext_equal]
pub struct Extent {
    pub rows: nat,
    pub cols: nat,
}

/// The greater number.
pub open spec fn greater(left: nat, right: nat) -> nat {
    if left <= right {
        right
    } else {
        left
    }
}

/// The reference that a cell has, as it is read for its value.
pub open spec fn value_reference(tag: XmlTagView) -> Option<Seq<char>> {
    met_value(tag.attributes, seq!["r"@, "s"@, "t"@], "r"@)
}

/// The reference that a row has, or a cell as it is read for its formula.
pub open spec fn own_reference(tag: XmlTagView) -> Option<Seq<char>> {
    met_value(tag.attributes, seq!["r"@], "r"@)
}

/// Whether a reference, if there is one, fits.
pub open spec fn optional_fits(reference: Option<Seq<char>>) -> bool {
    reference matches Some(text) ==> reference_fits(text)
}

/// Whether what a formula's tag says of a shared formula fits.
pub open spec fn formula_tag_fits(tag: XmlTagView) -> bool {
    let keys = seq!["t"@, "si"@, "ref"@];
    let index = met_value(tag.attributes, keys, "si"@);
    let range = met_value(tag.attributes, keys, "ref"@);
    (met_value(tag.attributes, keys, "t"@) == Some("shared"@) && index is Some && range is Some
        && announced(index->0) is Some) ==> announced_fits(index->0) && range_fits(range->0)
}

/// Whether the numbers in a tag among the cells fit.
pub open spec fn data_tag_fits(tag: XmlTagView) -> bool {
    if tag.local_name == "row"@ {
        optional_fits(own_reference(tag))
    } else if tag.local_name == "c"@ {
        optional_fits(own_reference(tag)) && optional_fits(value_reference(tag))
    } else if tag.local_name == "f"@ || tag.local_name == "v"@ || tag.local_name == "is"@ {
        formula_tag_fits(tag)
    } else {
        true
    }
}

impl Extent {
    /// What is reached with a cell of a reference. A cell without one follows the one
    /// before.
    pub open spec fn with_cell(self, reference: Option<Seq<char>>) -> Extent {
        match reference {
            Some(text) => Extent {
                rows: greater(self.rows, row_in_front(text)),
                cols: greater(self.cols, column_in_front(text)),
            },
            None => Extent { rows: self.rows, cols: self.cols + 1 },
        }
    }

    /// What is reached with either.
    pub open spec fn or(self, other: Extent) -> Extent {
        Extent { rows: greater(self.rows, other.rows), cols: greater(self.cols, other.cols) }
    }

    /// What is reached after a row or a cell has begun.
    pub open spec fn after_start(self, tag: XmlTagView) -> Extent {
        if tag.local_name == "row"@ {
            match own_reference(tag) {
                Some(text) => self.with_cell(Some(text)),
                None => self,
            }
        } else if tag.local_name == "c"@ {
            self.with_cell(own_reference(tag)).or(self.with_cell(value_reference(tag)))
        } else {
            self
        }
    }

    /// Whether the rows and columns fit 32 bits, and memory can be set aside for the
    /// rectangle.
    pub open spec fn fits(self) -> bool {
        &&& self.rows < u32::MAX
        &&& self.cols < u32::MAX
        &&& count_fits((self.rows + 1) * (self.cols + 1))
    }
}

/// How far a sheet is read.
#[verifier::ext_equal]
pub struct SheetReading {
    /// Whether the cells have begun.
    pub in_data: bool,
    /// Whether there are no cells.
    pub done: bool,
    pub extent: Extent,
}

impl SheetReading {
    pub open spec fn initial() -> Self {
        SheetReading { in_data: false, done: false, extent: Extent { rows: 0, cols: 0 } }
    }

    /// The reading behind another event. A row without a reference follows the one before.
    pub open spec fn after(self, event: XmlEventView) -> Self {
        if self.done {
            self
        } else if !self.in_data {
            match begun(event) {
                Some(tag) if tag.local_name == "sheetData"@ => SheetReading {
                    in_data: true,
                    done: event is Empty,
                    ..self
                },
                _ => self,
            }
        } else {
            let extent = match begun(event) {
                Some(tag) => self.extent.after_start(tag),
                None => self.extent,
            };
            SheetReading {
                extent: if ends(event, "row"@) {
                    Extent { rows: extent.rows + 1, cols: extent.cols }
                } else {
                    extent
                },
                ..self
            }
        }
    }

    /// Whether the numbers in the next tag fit: those of the sheet's dimension before the
    /// cells, and those of the cells.
    pub open spec fn admits(self, tag: XmlTagView) -> bool {
        if self.done {
            true
        } else if self.in_data {
            data_tag_fits(tag)
        } else {
            tag.local_name == "dimension"@ ==> (met_value(
                tag.attributes,
                seq!["ref"@],
                "ref"@,
            ) matches Some(range) ==> range_fits(range))
        }
    }
}

/// The reading behind events.
pub open spec fn sheet_reading(events: Seq<XmlEventView>) -> SheetReading
    decreases events.len(),
{
    if events.len() == 0 {
        SheetReading::initial()
    } else {
        sheet_reading(events.drop_last()).after(events.last())
    }
}

/// Whether the numbers in the part of a sheet fit, each for itself and all together.
pub open spec fn sheet_fits(events: Seq<XmlEventView>) -> bool {
    &&& forall|i: int|
        0 <= i < events.len() ==> (begun(events[i]) matches Some(tag) ==> (
        #[trigger] sheet_reading(events.take(i))).admits(tag))
    &&& sheet_reading(events).extent.fits()
}

/// Whether memory can be set aside for so many things at once.
fn fits_count(count: u128) -> (fits: bool)
    requires
        count <= u64::MAX,
    ensures
        fits == count_fits(count as nat),
{
    count * ENTRY_BYTES <= isize::MAX as u128
}

/// The number that a text of nothing but digits is, if it fits the machine's word.
fn announced_count(text: &str) -> (count: Option<usize>)
    ensures
        match count {
            Some(count) => announced(text@) == Some(count as nat),
            None => announced(text@) is None,
        },
{
    let chars = to_chars(text);
    if chars.len() > 0 && chars[0] == '+' {
        assert(without_plus(text@).len() != text@.len());
        return None;
    }
    parse_usize(text)
}

/// Whether memory can be set aside for a number of things and one more, where a text is a
/// number.
fn fits_announced(text: &str) -> (fits: bool)
    ensures
        fits == announced_fits(text@),
{
    match announced_count(text) {
        Some(count) => if count == usize::MAX {
            false
        } else {
            fits_count(count as u128 + 1)
        },
        None => true,
    }
}

/// Where the letters at `start` end.
fn behind_letters(chars: &Vec<char>, start: usize, end: usize) -> (last: usize)
    requires
        start <= end <= chars@.len(),
    ensures
        start <= last <= end,
        last == start + leading_letters(chars@.subrange(start as int, end as int)),
{
    let mut index: usize = start;
    while index < end && ('A' <= chars[index] && chars[index] <= 'Z' || 'a' <= chars[index]
        && chars[index] <= 'z')
        invariant
            start <= index <= end <= chars@.len(),
            index + leading_letters(chars@.subrange(index as int, end as int)) == start
                + leading_letters(chars@.subrange(start as int, end as int)),
        decreases end - index,
    {
        assert(chars@.subrange(index as int, end as int).skip(1) == chars@.subrange(
            index + 1,
            end as int,
        ));
        index += 1;
    }
    index
}

/// Where the digits at `start` end.
fn behind_digits(chars: &Vec<char>, start: usize, end: usize) -> (last: usize)
    requires
        start <= end <= chars@.len(),
    ensures
        start <= last <= end,
        last == start + leading_digits(chars@.subrange(start as int, end as int)),
{
    let mut index: usize = start;
    while index < end && '0' <= chars[index] && chars[index] <= '9'
        invariant
            start <= index <= end <= chars@.len(),
            index + leading_digits(chars@.subrange(index as int, end as int)) == start
                + leading_digits(chars@.subrange(start as int, end as int)),
        decreases end - index,
    {
        assert(chars@.subrange(index as int, end as int).skip(1) == chars@.subrange(
            index + 1,
            end as int,
        ));
        index += 1;
    }
    index
}

/// The numbers of a cell reference that fits 32 bits.
struct CellNumbers {
    row: u32,
    col: u32,
    /// Whether there is nothing else in the text.
    is_cell: bool,
}

/// The numbers of the reference from `start` up to `end`, if they fit 32 bits.
fn reference_numbers(chars: &Vec<char>, start: usize, end: usize) -> (numbers: Option<CellNumbers>)
    requires
        start <= end <= chars@.len(),
    ensures
        ({
            let text = chars@.subrange(start as int, end as int);
            match numbers {
                Some(numbers) => numbers.row == row_in_front(text) && numbers.col
                    == column_in_front(text) && numbers.is_cell == is_cell(text),
                None => !reference_fits(text),
            }
        }),
{
    let ghost text = chars@.subrange(start as int, end as int);
    let letters: usize = behind_letters(chars, start, end);
    let digits: usize = behind_digits(chars, letters, end);
    let ghost rest = text.skip(letters - start);
    assert(rest == chars@.subrange(letters as int, end as int));
    assert(text.take(letters - start) == chars@.subrange(start as int, letters as int));
    assert(rest.take(digits - letters) == chars@.subrange(letters as int, digits as int));
    let column: usize = match reference_parts(chars, start, letters).column {
        Some(column) => column,
        None => {
            return None;
        },
    };
    let row: usize = match reference_parts(chars, letters, digits).row {
        Some(row) => row,
        None => {
            return None;
        },
    };
    if row <= u32::MAX as usize && column <= u32::MAX as usize {
        let is_cell = letters > start && digits == end && row > 0;
        Some(CellNumbers { row: row as u32, col: column as u32, is_cell })
    } else {
        None
    }
}

/// The numbers of a cell reference, if they fit 32 bits.
fn numbers_of(text: &str) -> (numbers: Option<CellNumbers>)
    ensures
        match numbers {
            Some(numbers) => numbers.row == row_in_front(text@) && numbers.col == column_in_front(
                text@,
            ),
            None => !reference_fits(text@),
        },
{
    let chars = to_chars(text);
    assert(chars@.subrange(0, chars@.len() as int) == chars@);
    reference_numbers(&chars, 0, chars.len())
}

/// Whether the corners from `start` on fit 32 bits.
fn fits_corners(chars: &Vec<char>, start: usize) -> (fits: bool)
    requires
        start <= chars@.len(),
    ensures
        fits == corners_fit(chars@.skip(start as int)),
    decreases chars@.len() - start,
{
    let ghost text = chars@.skip(start as int);
    let colon: usize = find_from(chars, start, ':');
    proof {
        lemma_first_index(text, ':');
        if colon < chars@.len() {
            lemma_first_index_is(text, ':', colon - start);
        }
    }
    assert(chars@.subrange(start as int, chars@.len() as int) == text);
    if colon == chars.len() {
        return reference_numbers(chars, start, colon).is_some();
    }
    assert(chars@.subrange(start as int, colon as int) == text.take(colon - start));
    assert(text.skip(colon - start + 1) == chars@.skip(colon + 1));
    match reference_numbers(chars, start, colon) {
        None => false,
        Some(numbers) => !numbers.is_cell || fits_corners(chars, colon + 1),
    }
}

/// Whether the corners of a range reference fit 32 bits and come in order.
fn fits_range(text: &str) -> (fits: bool)
    ensures
        fits == range_fits(text@),
{
    let chars = to_chars(text);
    assert(chars@.skip(0) == chars@);
    if !fits_corners(&chars, 0) {
        return false;
    }
    let colon: usize = find_from(&chars, 0, ':');
    proof {
        lemma_first_index(text@, ':');
        if colon < chars@.len() {
            lemma_first_index_is(text@, ':', colon as int);
        }
    }
    if colon == chars.len() {
        return true;
    }
    assert(chars@.subrange(0, colon as int) == text@.take(colon as int));
    assert(chars@.subrange(colon + 1, chars@.len() as int) == text@.skip(colon + 1));
    proof {
        let first = text@.take(colon as int);
        let second = text@.skip(colon + 1);
        assert(corners_fit(text@));
        assert(reference_fits(first));
        if is_cell(first) && is_cell(second) {
            lemma_cells_have_no_colons(second);
            assert(corners_fit(second));
            assert(reference_fits(second));
        }
    }
    match (
        reference_numbers(&chars, 0, colon),
        reference_numbers(&chars, colon + 1, chars.len()),
    ) {
        (Some(first), Some(second)) => !first.is_cell || !second.is_cell || (first.col
            <= second.col && first.row <= second.row),
        _ => true,
    }
}

/// The reference of a cell holds no colon.
proof fn lemma_cells_have_no_colons(text: Seq<char>)
    requires
        is_cell(text),
    ensures
        first_index(text, ':') is None,
{
    let letters = leading_letters(text);
    let rest = text.skip(letters as int);
    lemma_first_index(text, ':');
    assert forall|i: int| 0 <= i < text.len() implies text[i] != ':' by {
        if i < letters {
            lemma_leading_letter(text, i);
        } else {
            lemma_leading_digit(rest, i - letters);
            assert(rest[i - letters] == text[i]);
        }
    }
}

proof fn lemma_leading_letter(text: Seq<char>, index: int)
    requires
        0 <= index < leading_letters(text),
        index < text.len(),
    ensures
        is_letter(text[index]),
    decreases text.len(),
{
    if index > 0 {
        lemma_leading_letter(text.skip(1), index - 1);
    }
}

proof fn lemma_leading_digit(text: Seq<char>, index: int)
    requires
        0 <= index < leading_digits(text),
        index < text.len(),
    ensures
        '0' <= text[index] <= '9',
    decreases text.len(),
{
    if index > 0 {
        lemma_leading_digit(text.skip(1), index - 1);
    }
}

/// Whether a number format, as it stands in an attribute, has no more brackets open at once
/// than 8 bits can count.
fn fits_format(raw: &str) -> (fits: bool)
    ensures
        fits == format_fits(raw@),
{
    let format = match unescape(raw) {
        Err(_) => {
            return true;
        },
        Ok(format) => format,
    };
    let chars = to_chars(format.as_str());
    let mut escaped: bool = false;
    let mut quoted: bool = false;
    let mut ended: bool = false;
    let mut overflown: bool = false;
    let mut brackets: usize = 0;
    let mut index: usize = 0;
    while index < chars.len()
        invariant
            brackets <= index <= chars@.len(),
            format_reading(chars@.take(index as int)) == (FormatReading {
                escaped,
                quoted,
                brackets: brackets as nat,
                ended,
                overflown,
            }),
        decreases chars@.len() - index,
    {
        assert(chars@.take(index + 1).drop_last() == chars@.take(index as int));
        let ch = chars[index];
        if !ended {
            if escaped {
                escaped = false;
            } else if ch == '_' || ch == '\\' || ch == '*' {
                escaped = true;
            } else if ch == '"' {
                quoted = !quoted;
            } else if !quoted {
                if ch == ';' {
                    ended = true;
                } else if ch == '[' {
                    if brackets >= u8::MAX as usize {
                        overflown = true;
                    }
                    brackets += 1;
                } else if ch == ']' && brackets > 0 {
                    brackets -= 1;
                }
            }
        }
        index += 1;
    }
    assert(chars@.take(index as int) == chars@);
    !overflown
}

/// Whether an event ends an element of a name.
pub(crate) fn ends_element(event: &XmlEvent, name: &str) -> (is: bool)
    ensures
        is == ends(event@, name@),
{
    match event {
        XmlEvent::Empty(tag) => same_text(tag.local_name.as_str(), name),
        XmlEvent::End(local_name) => same_text(local_name.as_str(), name),
        _ => false,
    }
}

/// The tag of an event that begins an element.
pub(crate) fn begun_tag(event: &XmlEvent) -> (tag: Option<&XmlTag>)
    ensures
        match tag {
            Some(tag) => begun(event@) == Some(tag@),
            None => begun(event@) is None,
        },
{
    match event {
        XmlEvent::Start(tag) => Some(tag),
        XmlEvent::Empty(tag) => Some(tag),
        _ => None,
    }
}

/// The contents of events.
pub open spec fn events_view(events: Seq<XmlEvent>) -> Seq<XmlEventView> {
    events.map_values(|event: XmlEvent| event@)
}

/// Whether memory can be set aside for the strings that the table of shared strings
/// announces.
pub fn fits_strings(events: &Vec<XmlEvent>) -> (fits: bool)
    ensures
        fits == strings_fit(events_view(events@)),
{
    let ghost views = events_view(events@);
    assert(views.skip(0) == views);
    let mut index: usize = 0;
    while index < events.len()
        invariant
            index <= events@.len(),
            views == events_view(events@),
            strings_fit(views) == strings_fit(views.skip(index as int)),
        decreases events@.len() - index,
    {
        assert(views.skip(index as int)[0] == events@[index as int]@);
        assert(views.skip(index as int).skip(1) == views.skip(index + 1));
        if let Some(tag) = begun_tag(&events[index]) {
            if same_text(tag.local_name.as_str(), "sst") {
                let keys: Vec<&str> = vec!["uniqueCount"];
                assert(keys_view(keys@) =~= seq!["uniqueCount"@]);
                return match value_met(tag.attributes.as_str(), &keys, "uniqueCount") {
                    Some(count) => fits_announced(count.as_str()),
                    None => true,
                };
            }
        }
        index += 1;
    }
    true
}

/// Whether a tag in the list of number formats fits.
fn fits_format_tag(tag: &XmlTag) -> (fits: bool)
    ensures
        fits == format_tag_fits(tag@),
{
    if !same_text(tag.local_name.as_str(), "numFmt") {
        return true;
    }
    let keys: Vec<&str> = vec!["numFmtId", "formatCode"];
    assert(keys_view(keys@) =~= seq!["numFmtId"@, "formatCode"@]);
    match (
        value_met(tag.attributes.as_str(), &keys, "numFmtId"),
        value_met(tag.attributes.as_str(), &keys, "formatCode"),
    ) {
        (Some(_), Some(format)) => fits_format(format.as_str()),
        _ => true,
    }
}

/// Whether the number formats of a style sheet fit.
pub fn fits_styles(events: &Vec<XmlEvent>) -> (fits: bool)
    ensures
        fits == styles_fit(events_view(events@)),
{
    let ghost views = events_view(events@);
    let mut inside: bool = false;
    let mut index: usize = 0;
    while index < events.len()
        invariant
            index <= events@.len(),
            views == events_view(events@),
            inside == in_formats(views.take(index as int)),
            forall|i: int|
                0 <= i < index && in_formats(#[trigger] views.take(i)) ==> (begun(
                    views[i],
                ) matches Some(tag) ==> format_tag_fits(tag)),
        decreases events@.len() - index,
    {
        assert(views.take(index + 1).drop_last() == views.take(index as int));
        assert(views[index as int] == events@[index as int]@);
        let event = &events[index];
        let mut begins: bool = false;
        if let Some(tag) = begun_tag(event) {
            if inside && !fits_format_tag(tag) {
                assert(in_formats(views.take(index as int)));
                return false;
            }
            begins = same_text(tag.local_name.as_str(), "numFmts");
        }
        inside = !ends_element(event, "numFmts") && (inside || begins);
        index += 1;
    }
    true
}

/// The reference of a row, or of a cell as it is read for its formula.
fn read_own_reference(tag: &XmlTag) -> (reference: Option<String>)
    ensures
        match reference {
            Some(reference) => own_reference(tag@) == Some(reference@),
            None => own_reference(tag@) is None,
        },
{
    let keys: Vec<&str> = vec!["r"];
    assert(keys_view(keys@) =~= seq!["r"@]);
    value_met(tag.attributes.as_str(), &keys, "r")
}

/// The reference of a cell as it is read for its value.
fn read_value_reference(tag: &XmlTag) -> (reference: Option<String>)
    ensures
        match reference {
            Some(reference) => value_reference(tag@) == Some(reference@),
            None => value_reference(tag@) is None,
        },
{
    let keys: Vec<&str> = vec!["r", "s", "t"];
    assert(keys_view(keys@) =~= seq!["r"@, "s"@, "t"@]);
    value_met(tag.attributes.as_str(), &keys, "r")
}

/// Whether what a formula's tag says of a shared formula fits.
fn fits_formula_tag(tag: &XmlTag) -> (fits: bool)
    ensures
        fits == formula_tag_fits(tag@),
{
    let keys: Vec<&str> = vec!["t", "si", "ref"];
    assert(keys_view(keys@) =~= seq!["t"@, "si"@, "ref"@]);
    match value_met(tag.attributes.as_str(), &keys, "t") {
        Some(kind) => {
            if !same_text(kind.as_str(), "shared") {
                return true;
            }
        },
        None => {
            return true;
        },
    }
    match (
        value_met(tag.attributes.as_str(), &keys, "si"),
        value_met(tag.attributes.as_str(), &keys, "ref"),
    ) {
        (Some(index), Some(range)) => announced_count(index.as_str()).is_none() || (fits_announced(
            index.as_str(),
        ) && fits_range(range.as_str())),
        _ => true,
    }
}

/// How far the cells of a sheet reach at most.
#[derive(Clone, Copy)]
struct Reach {
    rows: u128,
    cols: u128,
}

impl Reach {
    spec fn extent(self) -> Extent {
        Extent { rows: self.rows as nat, cols: self.cols as nat }
    }

    /// What is reached with a cell of a reference, if that fits.
    fn with_cell(self, reference: &Option<String>) -> (reach: Option<Reach>)
        requires
            self.cols < u128::MAX,
        ensures
            ({
                let text = match *reference {
                    Some(text) => Some(text@),
                    None => None,
                };
                match reach {
                    Some(reach) => optional_fits(text) && reach.extent() == self.extent().with_cell(
                        text,
                    ),
                    None => !optional_fits(text),
                }
            }),
            reach matches Some(reach) ==> reach.rows <= self.rows + u32::MAX && reach.cols
                <= self.cols + u32::MAX,
    {
        match reference {
            None => Some(Reach { rows: self.rows, cols: self.cols + 1 }),
            Some(text) => match numbers_of(text.as_str()) {
                None => None,
                Some(numbers) => Some(
                    Reach {
                        rows: if self.rows <= numbers.row as u128 {
                            numbers.row as u128
                        } else {
                            self.rows
                        },
                        cols: if self.cols <= numbers.col as u128 {
                            numbers.col as u128
                        } else {
                            self.cols
                        },
                    },
                ),
            },
        }
    }

    /// What is reached with either.
    fn or(self, other: Reach) -> (reach: Reach)
        ensures
            reach.extent() == self.extent().or(other.extent()),
    {
        Reach {
            rows: if self.rows <= other.rows {
                other.rows
            } else {
                self.rows
            },
            cols: if self.cols <= other.cols {
                other.cols
            } else {
                self.cols
            },
        }
    }

    /// What is reached after a tag among the cells, if its numbers fit.
    fn after_start(self, tag: &XmlTag) -> (reach: Option<Reach>)
        requires
            self.cols < u128::MAX,
        ensures
            match reach {
                Some(reach) => data_tag_fits(tag@) && reach.extent() == self.extent().after_start(
                    tag@,
                ),
                None => !data_tag_fits(tag@),
            },
            reach matches Some(reach) ==> reach.rows <= self.rows + u32::MAX && reach.cols
                <= self.cols + u32::MAX,
    {
        let name = tag.local_name.as_str();
        if same_text(name, "row") {
            let reference = read_own_reference(tag);
            if reference.is_none() {
                return Some(self);
            }
            return self.with_cell(&reference);
        }
        if same_text(name, "c") {
            return match (
                self.with_cell(&read_own_reference(tag)),
                self.with_cell(&read_value_reference(tag)),
            ) {
                (Some(first), Some(second)) => Some(first.or(second)),
                _ => None,
            };
        }
        if same_text(name, "f") || same_text(name, "v") || same_text(name, "is") {
            if !fits_formula_tag(tag) {
                return None;
            }
        }
        Some(self)
    }

    /// Whether the rows and columns fit 32 bits, and memory can be set aside for the
    /// rectangle.
    fn fits(&self) -> (fits: bool)
        ensures
            fits == self.extent().fits(),
    {
        if self.rows < u32::MAX as u128 && self.cols < u32::MAX as u128 {
            assert(1 <= (self.rows + 1) * (self.cols + 1) <= u64::MAX) by (nonlinear_arith)
                requires
                    0 <= self.rows < u32::MAX,
                    0 <= self.cols < u32::MAX,
            ;
            fits_count((self.rows + 1) * (self.cols + 1))
        } else {
            false
        }
    }
}

/// Whether the range of a sheet's dimension fits.
fn fits_dimension(tag: &XmlTag) -> (fits: bool)
    ensures
        fits == (SheetReading::initial()).admits(tag@),
{
    if !same_text(tag.local_name.as_str(), "dimension") {
        return true;
    }
    let keys: Vec<&str> = vec!["ref"];
    assert(keys_view(keys@) =~= seq!["ref"@]);
    match value_met(tag.attributes.as_str(), &keys, "ref") {
        Some(range) => fits_range(range.as_str()),
        None => true,
    }
}

/// Whether the numbers in the part of a sheet fit, each for itself and all together.
pub fn fits_sheet(events: &Vec<XmlEvent>) -> (fits: bool)
    ensures
        fits == sheet_fits(events_view(events@)),
{
    let ghost views = events_view(events@);
    let mut in_data: bool = false;
    let mut done: bool = false;
    let mut reach = Reach { rows: 0, cols: 0 };
    let mut index: usize = 0;
    while index < events.len()
        invariant
            index <= events@.len(),
            views == events_view(events@),
            sheet_reading(views.take(index as int)) == (SheetReading {
                in_data,
                done,
                extent: reach.extent(),
            }),
            forall|i: int|
                0 <= i < index ==> (begun(views[i]) matches Some(tag) ==> (
                #[trigger] sheet_reading(views.take(i))).admits(tag)),
            reach.rows <= index * 0x1_0000_0000,
            reach.cols <= index * 0x1_0000_0000,
        decreases events@.len() - index,
    {
        assert(views.take(index + 1).drop_last() == views.take(index as int));
        assert(views[index as int] == events@[index as int]@);
        let ghost reading = sheet_reading(views.take(index as int));
        let event = &events[index];
        if !done {
            if in_data {
                if let Some(tag) = begun_tag(event) {
                    match reach.after_start(tag) {
                        Some(next) => {
                            reach = next;
                        },
                        None => {
                            assert(!reading.admits(tag@));
                            return false;
                        },
                    }
                }
                if ends_element(event, "row") {
                    reach = Reach { rows: reach.rows + 1, cols: reach.cols };
                }
            } else if let Some(tag) = begun_tag(event) {
                if !fits_dimension(tag) {
                    assert(!reading.admits(tag@));
                    return false;
                }
                if same_text(tag.local_name.as_str(), "sheetData") {
                    in_data = true;
                    done = match event {
                        XmlEvent::Empty(_) => true,
                        _ => false,
                    };
                }
            }
        }
        index += 1;
    }
    assert(views.take(index as int) == views);
    reach.fits()
}

} // verus!
