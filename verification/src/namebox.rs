//! The name box: the address of the selection, and going to an address.

use vstd::prelude::*;

use crate::export::{lemma_pieces_append, lemma_pieces_single};
use crate::formulas::{formula_with_equals, with_equals};
use crate::lines::pieces;
use crate::numbers::{
    add_grouping, all_digits, decimal, decimal_text, digits_value, grouped, is_decimal_digit,
    is_digit_of, parsed_number, push_decimal,
};
use crate::range::{CellCoord, CellRange};
use crate::references::{
    all_upper, cell_label, cell_label_spec, column_letters, column_name, column_number, is_letter,
    label_refers_to_its_cell, letter_value, reference_indices,
};
use crate::sheet::{SheetData, SheetView};
use crate::text::{
    ascii_lowered, is_white_space, lowering_changes_capitals_only, to_chars, trim_bounds, trimmed,
    trimmed_end, trimmed_start, trimming_takes_white_space_only,
};

verus! {

/// What is selected: a range and the cell that the selection began with.
#[derive(Debug, Clone, Copy, PartialEq, Eq, Structural)]
pub struct Selection {
    pub anchor: CellCoord,
    pub range: CellRange,
}

/// The selection between two cells.
pub open spec fn selected(anchor: CellCoord, end: CellCoord) -> Selection {
    Selection { anchor, range: CellRange { start: anchor, end } }
}

impl Selection {
    /// The selection of one cell.
    pub fn single(coord: CellCoord) -> (selection: Selection)
        ensures
            selection == selected(coord, coord),
    {
        Selection { anchor: coord, range: CellRange::single(coord) }
    }

    /// The selection from the same cell to another.
    pub fn extend_to(self, coord: CellCoord) -> (selection: Selection)
        ensures
            selection == selected(self.anchor, coord),
    {
        Selection { anchor: self.anchor, range: CellRange::new(self.anchor, coord) }
    }

    /// The selection between two cells.
    pub fn select_range(anchor: CellCoord, end: CellCoord) -> (selection: Selection)
        ensures
            selection == selected(anchor, end),
    {
        Selection { anchor, range: CellRange::new(anchor, end) }
    }

    /// Whether a cell is selected.
    pub fn contains(self, row: usize, col: usize) -> (inside: bool)
        ensures
            inside == self.range.has_cell(row as int, col as int),
    {
        self.range.contains(row, col)
    }
}

/// What an address means.
#[derive(Debug, Clone, Copy, PartialEq, Eq, Structural)]
pub enum NameRef {
    Cell(CellCoord),
    Column(usize),
    Row(usize),
}

/// Where the letters end that a text begins with.
pub open spec fn letters_end(text: Seq<char>, from: int) -> int
    decreases text.len() - from,
{
    if 0 <= from < text.len() && is_letter(text[from]) {
        letters_end(text, from + 1)
    } else {
        from
    }
}

/// An index cut off at the last one.
pub open spec fn at_most_last(index: nat, count: nat) -> usize {
    if index < count {
        index as usize
    } else {
        (count - 1) as usize
    }
}

/// What an address means in a sheet: letters are a column, digits a row, letters
/// before digits a cell. What lies outside of the sheet is moved to its edge, however
/// far outside it is; there is no row zero.
pub open spec fn reference_of(input: Seq<char>, col_count: nat, row_count: nat) -> Option<NameRef> {
    let text = trimmed(input);
    let letters = text.take(letters_end(text, 0));
    let digits = text.skip(letters_end(text, 0));
    let column = column_number(letters);
    let row = digits_value(digits, 10);
    if col_count == 0 || row_count == 0 || text.len() == 0 || !all_digits(digits, 10) {
        None
    } else if digits.len() > 0 && row == 0 {
        None
    } else if digits.len() == 0 {
        Some(NameRef::Column(at_most_last((column - 1) as nat, col_count)))
    } else if letters.len() == 0 {
        Some(NameRef::Row(at_most_last((row - 1) as nat, row_count)))
    } else {
        Some(
            NameRef::Cell(
                CellCoord {
                    row: at_most_last((row - 1) as nat, row_count),
                    col: at_most_last((column - 1) as nat, col_count),
                },
            ),
        )
    }
}

/// A number with one more digit, unless it exceeds the word size.
fn appended(number: usize, base: usize, digit: usize) -> (next: Option<usize>)
    requires
        10 <= base <= 26,
        digit <= 26,
    ensures
        match next {
            Some(next) => next == number * base + digit,
            None => number * base + digit > usize::MAX,
        },
{
    proof {
        assert(0 <= number * base <= usize::MAX * 26) by (nonlinear_arith)
            requires
                number <= usize::MAX,
                base <= 26,
        ;
    }
    let next: u128 = number as u128 * base as u128 + digit as u128;
    if next <= usize::MAX as u128 {
        Some(next as usize)
    } else {
        None
    }
}

/// Cutting letters off makes no column number larger.
proof fn lemma_column_prefix(text: Seq<char>, length: int)
    requires
        0 <= length <= text.len(),
    ensures
        column_number(text.take(length)) <= column_number(text),
    decreases text.len() - length,
{
    if length == text.len() {
        assert(text.take(length) == text);
    } else {
        lemma_column_prefix(text, length + 1);
        assert(text.take(length + 1).drop_last() == text.take(length));
    }
}

/// Cutting digits off makes no number larger.
proof fn lemma_digits_prefix(digits: Seq<char>, length: int)
    requires
        0 <= length <= digits.len(),
    ensures
        digits_value(digits.take(length), 10) <= digits_value(digits, 10),
    decreases digits.len() - length,
{
    if length == digits.len() {
        assert(digits.take(length) == digits);
    } else {
        lemma_digits_prefix(digits, length + 1);
        assert(digits.take(length + 1).drop_last() == digits.take(length));
    }
}

/// The column number that letters spell, unless it exceeds the word size.
fn spelled_column(chars: &Vec<char>, start: usize, end: usize) -> (column: Option<usize>)
    requires
        start <= end <= chars@.len(),
        forall|i: int| start <= i < end ==> is_letter(#[trigger] chars@[i]),
    ensures
        match column {
            Some(column) => column == column_number(chars@.subrange(start as int, end as int)),
            None => column_number(chars@.subrange(start as int, end as int)) > usize::MAX,
        },
{
    let ghost letters = chars@.subrange(start as int, end as int);
    let mut column: usize = 0;
    let mut index: usize = start;
    while index < end
        invariant
            start <= index <= end <= chars@.len(),
            letters == chars@.subrange(start as int, end as int),
            forall|i: int| start <= i < end ==> is_letter(#[trigger] chars@[i]),
            column == column_number(letters.take(index - start)),
        decreases end - index,
    {
        let ch = chars[index];
        proof {
            assert(letters.take(index - start + 1).drop_last() == letters.take(index - start));
            assert(letters.take(index - start + 1).last() == ch);
            lemma_column_prefix(letters, index - start + 1);
        }
        let value: usize = if 'A' <= ch && ch <= 'Z' {
            (ch as u32 - 'A' as u32 + 1) as usize
        } else {
            (ch as u32 - 'a' as u32 + 1) as usize
        };
        column = match appended(column, 26, value) {
            Some(next) => next,
            None => {
                return None;
            },
        };
        index += 1;
    }
    assert(letters.take(index - start) == letters);
    Some(column)
}

/// The number that digits denote, unless it exceeds the word size.
fn written_row(chars: &Vec<char>, start: usize, end: usize) -> (row: Option<usize>)
    requires
        start <= end <= chars@.len(),
        all_digits(chars@.subrange(start as int, end as int), 10),
    ensures
        match row {
            Some(row) => row == digits_value(chars@.subrange(start as int, end as int), 10),
            None => digits_value(chars@.subrange(start as int, end as int), 10) > usize::MAX,
        },
{
    let ghost digits = chars@.subrange(start as int, end as int);
    let mut row: usize = 0;
    let mut index: usize = start;
    while index < end
        invariant
            start <= index <= end <= chars@.len(),
            digits == chars@.subrange(start as int, end as int),
            all_digits(digits, 10),
            row == digits_value(digits.take(index - start), 10),
        decreases end - index,
    {
        let ch = chars[index];
        proof {
            assert(digits.take(index - start + 1).drop_last() == digits.take(index - start));
            assert(digits.take(index - start + 1).last() == ch);
            assert(is_digit_of(digits[index - start], 10));
            lemma_digits_prefix(digits, index - start + 1);
        }
        row = match appended(row, 10, (ch as u32 - '0' as u32) as usize) {
            Some(next) => next,
            None => {
                return None;
            },
        };
        index += 1;
    }
    assert(digits.take(index - start) == digits);
    Some(row)
}

/// The index of the column that capitals name; none where it exceeds the word
/// size or there are no letters. This undoes naming a column.
pub fn column_index(letters: &str) -> (index: Option<usize>)
    requires
        all_upper(letters@),
    ensures
        index == if 1 <= column_number(letters@) <= usize::MAX {
            Some((column_number(letters@) - 1) as usize)
        } else {
            None
        },
{
    let chars = to_chars(letters);
    assert(chars@.subrange(0, chars@.len() as int) == chars@);
    assert forall|i: int| 0 <= i < chars@.len() implies is_letter(#[trigger] chars@[i]) by {
        assert('A' <= letters@[i] <= 'Z');
    }
    match spelled_column(&chars, 0, chars.len()) {
        Some(column) => if column >= 1 {
            Some(column - 1)
        } else {
            None
        },
        None => None,
    }
}

/// Letters spell a number.
proof fn lemma_column_positive(letters: Seq<char>)
    requires
        letters.len() > 0,
        forall|i: int| 0 <= i < letters.len() ==> is_letter(#[trigger] letters[i]),
    ensures
        column_number(letters) >= 1,
{
    assert(is_letter(letters[letters.len() - 1]));
}

/// Reads an address: `A` is a column, `100` a row and `B101` a cell. What lies
/// outside of the sheet is moved to its edge.
pub fn parse_name_box_reference(input: &str, col_count: usize, row_count: usize) -> (name_ref:
    Option<NameRef>)
    ensures
        name_ref == reference_of(input@, col_count as nat, row_count as nat),
{
    if col_count == 0 || row_count == 0 {
        return None;
    }
    let chars = to_chars(input);
    assert(chars@.subrange(0, chars@.len() as int) == chars@);
    let (start, end) = trim_bounds(&chars, 0, chars.len());
    let ghost text = trimmed(input@);
    if start == end {
        return None;
    }
    let mut split: usize = start;
    while split < end && (('A' <= chars[split] && chars[split] <= 'Z') || ('a' <= chars[split]
        && chars[split] <= 'z'))
        invariant
            start <= split <= end <= chars@.len(),
            text == chars@.subrange(start as int, end as int),
            letters_end(text, 0) == letters_end(text, split - start),
            forall|i: int| start <= i < split ==> is_letter(#[trigger] chars@[i]),
        decreases end - split,
    {
        assert(text[split - start] == chars@[split as int]);
        split += 1;
    }
    assert(split < end ==> text[split - start] == chars@[split as int]);
    let ghost letters = text.take(letters_end(text, 0));
    let ghost digits = text.skip(letters_end(text, 0));
    proof {
        assert(letters_end(text, 0) == split - start);
        assert(letters == chars@.subrange(start as int, split as int));
        assert(digits == chars@.subrange(split as int, end as int));
    }
    let mut index: usize = split;
    while index < end
        invariant
            start <= split <= index <= end <= chars@.len(),
            text == trimmed(input@),
            digits == text.skip(letters_end(text, 0)),
            digits == chars@.subrange(split as int, end as int),
            forall|i: int| split <= i < index ==> is_digit_of(#[trigger] chars@[i], 10),
        decreases end - index,
    {
        if !is_decimal_digit(chars[index]) {
            assert(digits[index - split] == chars@[index as int]);
            assert(!all_digits(digits, 10));
            return None;
        }
        index += 1;
    }
    assert(all_digits(digits, 10));
    let column: usize = match spelled_column(&chars, start, split) {
        Some(column) => column,
        None => usize::MAX,
    };
    let row: usize = match written_row(&chars, split, end) {
        Some(row) => row,
        None => usize::MAX,
    };
    if split < end && row == 0 {
        return None;
    }
    proof {
        if letters.len() > 0 {
            assert forall|i: int| 0 <= i < letters.len() implies is_letter(
                #[trigger] letters[i],
            ) by {
                assert(letters[i] == chars@[start + i]);
            }
            lemma_column_positive(letters);
        }
    }
    if split == end {
        let col: usize = if column - 1 < col_count {
            column - 1
        } else {
            col_count - 1
        };
        return Some(NameRef::Column(col));
    }
    let row: usize = if row - 1 < row_count {
        row - 1
    } else {
        row_count - 1
    };
    if start == split {
        return Some(NameRef::Row(row));
    }
    let col: usize = if column - 1 < col_count {
        column - 1
    } else {
        col_count - 1
    };
    Some(NameRef::Cell(CellCoord { row, col }))
}

/// Whether a range spans all rows of a sheet that has more than one.
pub open spec fn spans_rows(range: CellRange, row_count: nat) -> bool {
    row_count > 1 && range.top_row() == 0 && range.bottom_row() == row_count - 1
}

/// Whether a range spans all columns of a sheet that has more than one.
pub open spec fn spans_columns(range: CellRange, col_count: nat) -> bool {
    col_count > 1 && range.left_col() == 0 && range.right_col() == col_count - 1
}

/// The address of a selection: columns where they are selected as a whole, rows
/// where they are, else the cell that the selection began with.
pub open spec fn label_of(selection: Selection, row_count: nat, col_count: nat) -> Seq<char> {
    let range = selection.range;
    let full_columns = spans_rows(range, row_count);
    let full_rows = spans_columns(range, col_count);
    if full_columns && !full_rows {
        if range.left_col() == range.right_col() {
            column_letters(range.left_col() as nat)
        } else {
            column_letters(range.left_col() as nat) + seq![':'] + column_letters(
                range.right_col() as nat,
            )
        }
    } else if full_rows && !full_columns {
        if range.top_row() == range.bottom_row() {
            decimal(range.top_row() as nat + 1)
        } else {
            decimal(range.top_row() as nat + 1) + seq![':'] + decimal(
                range.bottom_row() as nat + 1,
            )
        }
    } else {
        cell_label_spec(selection.anchor.row as nat, selection.anchor.col as nat)
    }
}

/// The `A1` notation of a cell.
pub fn cell_address(coord: CellCoord) -> (address: String)
    requires
        coord.row < usize::MAX,
    ensures
        address@ == cell_label_spec(coord.row as nat, coord.col as nat),
{
    cell_label(coord.row, coord.col)
}

/// The address of a selection in a sheet of so many rows and columns.
pub fn name_box_label(selection: Selection, row_count: usize, col_count: usize) -> (label: String)
    requires
        selection.anchor.row < usize::MAX,
        selection.range.bottom_row() < usize::MAX,
    ensures
        label@ == label_of(selection, row_count as nat, col_count as nat),
{
    let range = selection.range.normalized();
    let full_columns = row_count > 1 && range.start.row == 0 && range.end.row == row_count - 1;
    let full_rows = col_count > 1 && range.start.col == 0 && range.end.col == col_count - 1;
    if full_columns && !full_rows {
        let mut label = column_name(range.start.col);
        if range.start.col != range.end.col {
            label.push(':');
            label.push_str(column_name(range.end.col).as_str());
        }
        return label;
    }
    if full_rows && !full_columns {
        let mut label = decimal_text((range.start.row + 1) as u64);
        if range.start.row != range.end.row {
            label.push(':');
            push_decimal(&mut label, (range.end.row + 1) as u64);
        }
        return label;
    }
    cell_address(selection.anchor)
}

/// The number of a row with commas between groups of three digits.
pub fn row_number_label(row_number: usize) -> (label: String)
    ensures
        label@ == grouped(decimal(row_number as nat)),
{
    add_grouping(decimal_text(row_number as u64).as_str())
}

/// The text of the formula bar: the formula of the cell that the selection began
/// with, or its displayed text where it has none.
pub open spec fn bar_text(sheet: SheetView, selection: Selection) -> Seq<char> {
    let cell = sheet.cell(selection.anchor.row as int, selection.anchor.col as int);
    match cell.formula {
        Some(formula) => with_equals(formula),
        None => cell.value,
    }
}

/// The text of the formula bar.
pub fn formula_bar_value(sheet: &SheetData, selection: Selection) -> (text: String)
    ensures
        text@ == bar_text(sheet@, selection),
{
    let cell = sheet.cell_data(selection.anchor.row, selection.anchor.col);
    match &cell.formula {
        Some(formula) => formula_with_equals(formula.as_str()),
        None => cell.value.clone(),
    }
}

proof fn lemma_letters_then_digits(letters: Seq<char>, digits: Seq<char>, from: int)
    requires
        0 <= from <= letters.len(),
        all_upper(letters),
        all_digits(digits, 10),
    ensures
        letters_end(letters + digits, from) == letters.len(),
    decreases letters.len() - from,
{
    let text = letters + digits;
    if from < letters.len() {
        assert(text[from] == letters[from]);
        lemma_letters_then_digits(letters, digits, from + 1);
    } else if digits.len() > 0 {
        assert(text[from] == digits[0]);
        assert(is_digit_of(digits[0], 10));
    }
}

proof fn lemma_not_trimmed(text: Seq<char>)
    requires
        text.len() > 0 ==> !is_white_space(text[0]) && !is_white_space(text[text.len() - 1]),
    ensures
        trimmed(text) == text,
{
    assert(trimmed_start(text) == text);
    assert(trimmed_end(text) == text);
}

proof fn lemma_reference(letters: Seq<char>, digits: Seq<char>)
    requires
        all_upper(letters),
        all_digits(digits, 10),
        letters.len() + digits.len() > 0,
    ensures
        trimmed(letters + digits) == letters + digits,
        (letters + digits).take(letters_end(letters + digits, 0)) == letters,
        (letters + digits).skip(letters_end(letters + digits, 0)) == digits,
{
    let text = letters + digits;
    lemma_letters_then_digits(letters, digits, 0);
    assert forall|i: int| 0 <= i < text.len() implies !is_white_space(text[i]) by {
        if i < letters.len() {
            assert('A' <= letters[i] <= 'Z');
        } else {
            assert(is_digit_of(digits[i - letters.len()], 10));
        }
    }
    lemma_not_trimmed(text);
    assert(text.take(letters.len() as int) == letters);
    assert(text.skip(letters.len() as int) == digits);
}

/// Going to the address of a cell goes to that cell, to the name of a column to
/// that column and to the number of a row to that row.
pub proof fn addresses_lead_back(row: usize, col: usize, row_count: nat, col_count: nat)
    requires
        row < row_count <= usize::MAX,
        col < col_count <= usize::MAX,
    ensures
        reference_of(cell_label_spec(row as nat, col as nat), col_count, row_count) == Some(
            NameRef::Cell(CellCoord { row, col }),
        ),
        reference_of(column_letters(col as nat), col_count, row_count) == Some(
            NameRef::Column(col),
        ),
        reference_of(decimal(row as nat + 1), col_count, row_count) == Some(NameRef::Row(row)),
{
    let letters = column_letters(col as nat);
    let digits = decimal(row as nat + 1);
    let nothing = Seq::<char>::empty();
    crate::references::column_name_spells_its_number(col as nat);
    crate::numbers::digits_denote_their_number(row as nat + 1, 10);
    lemma_reference(letters, digits);
    lemma_reference(letters, nothing);
    lemma_reference(nothing, digits);
    assert(letters + nothing == letters);
    assert(nothing + digits == digits);
    assert(column_number(nothing) == 0);
}

/// An address beyond the sheet leads to its last row or column; a row numbered zero leads
/// nowhere, and in a sheet without cells every address does.
pub proof fn addresses_beyond_the_sheet_lead_to_its_end(
    row: nat,
    col: nat,
    row_count: nat,
    col_count: nat,
)
    requires
        0 < row_count <= usize::MAX,
        0 < col_count <= usize::MAX,
    ensures
        row >= row_count && col >= col_count ==> reference_of(
            cell_label_spec(row, col),
            col_count,
            row_count,
        ) == Some(
            NameRef::Cell(
                CellCoord { row: (row_count - 1) as usize, col: (col_count - 1) as usize },
            ),
        ),
        row >= row_count ==> reference_of(decimal(row + 1), col_count, row_count) == Some(
            NameRef::Row((row_count - 1) as usize),
        ),
        col >= col_count ==> reference_of(column_letters(col), col_count, row_count) == Some(
            NameRef::Column((col_count - 1) as usize),
        ),
        reference_of(decimal(0), col_count, row_count) is None,
        reference_of(column_letters(col) + decimal(0), col_count, row_count) is None,
        reference_of(Seq::empty(), col_count, row_count) is None,
        reference_of(cell_label_spec(row, col), 0, row_count) is None,
        reference_of(cell_label_spec(row, col), col_count, 0) is None,
{
    let letters = column_letters(col);
    let (digits, zero) = (decimal(row + 1), decimal(0));
    let nothing = Seq::<char>::empty();
    crate::references::column_name_spells_its_number(col);
    crate::numbers::digits_denote_their_number(row + 1, 10);
    crate::numbers::digits_denote_their_number(0, 10);
    lemma_reference(letters, digits);
    lemma_reference(letters, zero);
    lemma_reference(letters, nothing);
    lemma_reference(nothing, digits);
    lemma_reference(nothing, zero);
    assert(letters + nothing == letters);
    assert(nothing + digits == digits);
    assert(nothing + zero == zero);
    assert(column_number(nothing) == 0);
    assert(trimmed(nothing) =~= nothing);
}

/// Neither small letters nor white space around it change where an address leads.
pub proof fn addresses_are_read_in_any_case(input: Seq<char>, col_count: nat, row_count: nat)
    ensures
        reference_of(ascii_lowered(input), col_count, row_count) == reference_of(
            input,
            col_count,
            row_count,
        ),
        trimmed(trimmed(input)) == trimmed(input),
{
    let text = trimmed(input);
    lemma_lowered_trims(input);
    trimming_takes_white_space_only(input);
    if text.len() > 0 {
        lemma_not_trimmed(text);
    }
    let lowered = ascii_lowered(text);
    assert forall|i: int| 0 <= i < text.len() implies is_letter(#[trigger] lowered[i]) == is_letter(
        text[i],
    ) && (is_letter(text[i]) ==> letter_value(lowered[i]) == letter_value(text[i])) && (
    !is_letter(text[i]) ==> lowered[i] == text[i]) by {
        lowering_changes_capitals_only(text, i);
    }
    lemma_same_letters_end(text, lowered, 0);
    let end = letters_end(text, 0);
    lemma_letters_are_letters(text, 0);
    lemma_same_column(text.take(end), lowered.take(end));
    if all_digits(text.skip(end), 10) || all_digits(lowered.skip(end), 10) {
        assert forall|i: int| 0 <= i < text.skip(end).len() implies text.skip(end)[i]
            == lowered.skip(end)[i] by {
            lowering_changes_capitals_only(text, end + i);
            if all_digits(text.skip(end), 10) {
                assert(is_digit_of(text.skip(end)[i], 10));
            } else {
                assert(is_digit_of(lowered.skip(end)[i], 10));
            }
        }
        assert(text.skip(end) =~= lowered.skip(end));
    }
}

proof fn lemma_lowered_trims(input: Seq<char>)
    ensures
        trimmed(ascii_lowered(input)) == ascii_lowered(trimmed(input)),
{
    lemma_lowered_trims_start(input);
    lemma_lowered_trims_end(trimmed_start(input));
}

proof fn lemma_lowered_trims_start(input: Seq<char>)
    ensures
        trimmed_start(ascii_lowered(input)) == ascii_lowered(trimmed_start(input)),
    decreases input.len(),
{
    if input.len() > 0 {
        lowering_changes_capitals_only(input, 0);
        assert(ascii_lowered(input).skip(1) =~= ascii_lowered(input.skip(1)));
        lemma_lowered_trims_start(input.skip(1));
    }
}

proof fn lemma_lowered_trims_end(input: Seq<char>)
    ensures
        trimmed_end(ascii_lowered(input)) == ascii_lowered(trimmed_end(input)),
    decreases input.len(),
{
    if input.len() > 0 {
        lowering_changes_capitals_only(input, input.len() - 1);
        assert(ascii_lowered(input).drop_last() =~= ascii_lowered(input.drop_last()));
        lemma_lowered_trims_end(input.drop_last());
    }
}

proof fn lemma_same_letters_end(text: Seq<char>, other: Seq<char>, from: int)
    requires
        0 <= from <= text.len() == other.len(),
        forall|i: int| 0 <= i < text.len() ==> is_letter(#[trigger] other[i]) == is_letter(text[i]),
    ensures
        letters_end(text, from) == letters_end(other, from),
    decreases text.len() - from,
{
    if from < text.len() {
        assert(is_letter(other[from]) == is_letter(text[from]));
        lemma_same_letters_end(text, other, from + 1);
    }
}

proof fn lemma_letters_are_letters(text: Seq<char>, from: int)
    requires
        0 <= from <= text.len(),
    ensures
        from <= letters_end(text, from) <= text.len(),
        forall|i: int| from <= i < letters_end(text, from) ==> is_letter(#[trigger] text[i]),
    decreases text.len() - from,
{
    if from < text.len() && is_letter(text[from]) {
        lemma_letters_are_letters(text, from + 1);
    }
}

proof fn lemma_same_column(text: Seq<char>, other: Seq<char>)
    requires
        text.len() == other.len(),
        forall|i: int|
            0 <= i < text.len() ==> is_letter(#[trigger] other[i]) == is_letter(text[i]) && (
            is_letter(text[i]) ==> letter_value(other[i]) == letter_value(text[i])),
    ensures
        column_number(text) == column_number(other),
    decreases text.len(),
{
    if text.len() > 0 {
        let (shorter, rest) = (text.drop_last(), other.drop_last());
        assert(other[text.len() - 1] == other.last());
        assert forall|i: int| 0 <= i < shorter.len() implies is_letter(#[trigger] rest[i])
            == is_letter(shorter[i]) && (is_letter(shorter[i]) ==> letter_value(rest[i])
            == letter_value(shorter[i])) by {
            assert(rest[i] == other[i] && shorter[i] == text[i]);
        }
        lemma_same_column(shorter, rest);
    }
}

/// The name box names whole columns by their letters and whole rows by their numbers, the first
/// and the last of several with a colon between them; any other selection is named by the cell
/// it began with.
pub proof fn labels_name_the_selection(selection: Selection, row_count: nat, col_count: nat)
    requires
        selection.range.bottom_row() < row_count <= usize::MAX,
        selection.range.right_col() < col_count <= usize::MAX,
        1 < row_count,
        1 < col_count,
        selection.anchor.row < usize::MAX,
    ensures
        ({
            let label = label_of(selection, row_count, col_count);
            let range = selection.range;
            let all_rows = forall|row: int| 0 <= row < row_count ==> #[trigger] range.has_row(row);
            let all_cols = forall|col: int| 0 <= col < col_count ==> #[trigger] range.has_col(col);
            let (top, bottom) = (range.top_row() as int, range.bottom_row() as int);
            let (left, right) = (range.left_col() as int, range.right_col() as int);
            &&& all_rows && !all_cols && left == right ==> column_number(label) == left + 1
                && all_upper(label)
            &&& all_rows && !all_cols && left < right ==> pieces(label, ':').len() == 2
                && column_number(pieces(label, ':')[0]) == left + 1 && column_number(
                pieces(label, ':')[1],
            ) == right + 1
            &&& all_cols && !all_rows && top == bottom ==> parsed_number(label, 10) == Some(
                (top + 1) as nat,
            )
            &&& all_cols && !all_rows && top < bottom ==> pieces(label, ':').len() == 2
                && parsed_number(pieces(label, ':')[0], 10) == Some((top + 1) as nat)
                && parsed_number(pieces(label, ':')[1], 10) == Some((bottom + 1) as nat)
            &&& all_rows == all_cols ==> reference_indices(label) == Some(
                (selection.anchor.row, selection.anchor.col),
            )
        }),
{
    let range = selection.range;
    let all_rows = forall|row: int| 0 <= row < row_count ==> #[trigger] range.has_row(row);
    let all_cols = forall|col: int| 0 <= col < col_count ==> #[trigger] range.has_col(col);
    if all_rows {
        assert(range.has_row(0) && range.has_row(row_count - 1));
    }
    if all_cols {
        assert(range.has_col(0) && range.has_col(col_count - 1));
    }
    assert(all_rows == spans_rows(range, row_count));
    assert(all_cols == spans_columns(range, col_count));
    let (first, last) = (column_letters(range.left_col() as nat), column_letters(
        range.right_col() as nat,
    ));
    crate::references::column_name_spells_its_number(range.left_col() as nat);
    crate::references::column_name_spells_its_number(range.right_col() as nat);
    assert(!first.contains(':')) by {
        assert forall|i: int| 0 <= i < first.len() implies first[i] != ':' by {
            assert('A' <= first[i] <= 'Z');
        }
    }
    assert(!last.contains(':')) by {
        assert forall|i: int| 0 <= i < last.len() implies last[i] != ':' by {
            assert('A' <= last[i] <= 'Z');
        }
    }
    lemma_two_pieces(first, last);
    let (upper, lower) = (decimal(range.top_row() as nat + 1), decimal(
        range.bottom_row() as nat + 1,
    ));
    crate::numbers::decimal_text_reads_back(range.top_row() as nat + 1);
    crate::numbers::decimal_text_reads_back(range.bottom_row() as nat + 1);
    crate::numbers::digits_denote_their_number(range.top_row() as nat + 1, 10);
    crate::numbers::digits_denote_their_number(range.bottom_row() as nat + 1, 10);
    assert(!upper.contains(':')) by {
        assert forall|i: int| 0 <= i < upper.len() implies upper[i] != ':' by {
            assert(is_digit_of(upper[i], 10));
        }
    }
    assert(!lower.contains(':')) by {
        assert forall|i: int| 0 <= i < lower.len() implies lower[i] != ':' by {
            assert(is_digit_of(lower[i], 10));
        }
    }
    lemma_two_pieces(upper, lower);
    label_refers_to_its_cell(selection.anchor.row, selection.anchor.col);
}

proof fn lemma_two_pieces(first: Seq<char>, last: Seq<char>)
    requires
        !first.contains(':'),
        !last.contains(':'),
    ensures
        pieces(first + seq![':'] + last, ':') == seq![first, last],
{
    lemma_pieces_single(first, ':');
    lemma_pieces_append(first, ':', last);
    assert(first + seq![':'] + last =~= first.push(':') + last);
    assert(pieces(first, ':').push(last) =~= seq![first, last]);
}

/// The formula bar shows the formula of the cell that the selection began with behind an equals
/// sign, and the cell's text where it has none.
pub proof fn the_bar_shows_the_formula_or_the_text(sheet: SheetView, selection: Selection)
    ensures
        ({
            let cell = sheet.cell(selection.anchor.row as int, selection.anchor.col as int);
            let text = bar_text(sheet, selection);
            &&& cell.formula is None ==> text == cell.value
            &&& cell.formula is Some ==> text.len() > 0 && text[0] == '=' && (text
                == cell.formula->0 || text.skip(1) == cell.formula->0)
        }),
{
    let cell = sheet.cell(selection.anchor.row as int, selection.anchor.col as int);
    if cell.formula is Some {
        assert((seq!['='] + cell.formula->0).skip(1) =~= cell.formula->0);
    }
}

} // verus!
