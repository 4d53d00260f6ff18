//! Column names and cell references in `A1` notation.

use vstd::prelude::*;

use crate::numbers::{all_digits, decimal, digits_value, is_decimal_digit, is_digit_of, push_decimal};
use crate::range::{CellCoord, CellRange};
use crate::text::{
    ascii_lowered, find_from, first_index, is_white_space, lemma_first_index, lemma_first_index_is,
    lowering_changes_capitals_only, to_chars, trim_bounds, trimmed,
};

verus! {

/// The letter of a column digit, counted from zero.
pub open spec fn column_letter(digit: nat) -> char {
    ('A' as u32 + digit) as char
}

/// The name of a column: `A` to `Z`, then `AA`, `AB` and so on.
pub open spec fn column_letters(index: nat) -> Seq<char>
    decreases index,
{
    if index < 26 {
        seq![column_letter(index)]
    } else {
        column_letters((index / 26 - 1) as nat).push(column_letter(index % 26))
    }
}

/// Whether a character is an ASCII letter.
pub open spec fn is_letter(ch: char) -> bool {
    'A' <= ch <= 'Z' || 'a' <= ch <= 'z'
}

/// The place of a letter in the alphabet, counted from one, in either case.
pub open spec fn letter_value(ch: char) -> nat {
    if 'A' <= ch <= 'Z' {
        (ch as u32 - 'A' as u32 + 1) as nat
    } else {
        (ch as u32 - 'a' as u32 + 1) as nat
    }
}

/// The column number, counted from one, that the letters of a text spell;
/// characters that are no letters are passed over.
pub open spec fn column_number(text: Seq<char>) -> nat
    decreases text.len(),
{
    if text.len() == 0 {
        0
    } else if is_letter(text.last()) {
        column_number(text.drop_last()) * 26 + letter_value(text.last())
    } else {
        column_number(text.drop_last())
    }
}

/// The decimal digits of a text; characters that are no digits are passed over.
pub open spec fn row_digits(text: Seq<char>) -> Seq<char>
    decreases text.len(),
{
    if text.len() == 0 {
        Seq::empty()
    } else if is_digit_of(text.last(), 10) {
        row_digits(text.drop_last()).push(text.last())
    } else {
        row_digits(text.drop_last())
    }
}

/// The position that a cell reference denotes: its letters give the column and
/// its digits the row, both counted from one.
pub open spec fn reference_indices(text: Seq<char>) -> Option<(usize, usize)> {
    let row = digits_value(row_digits(text), 10);
    if row_digits(text).len() > 0 && 1 <= row <= usize::MAX && column_number(text) >= 1 {
        Some(((row - 1) as usize, (column_number(text) - 1) as usize))
    } else {
        None
    }
}

/// Whether the column of a cell reference fits the machine's word.
pub open spec fn column_fits(text: Seq<char>) -> bool {
    column_number(text) <= usize::MAX
}

/// The name of a column.
pub fn column_name(index: usize) -> (name: String)
    ensures
        name@ == column_letters(index as nat),
{
    let mut name = String::new();
    push_column_name(&mut name, index);
    name
}

/// Appends the name of a column.
fn push_column_name(name: &mut String, index: usize)
    ensures
        final(name)@ == old(name)@ + column_letters(index as nat),
    decreases index,
{
    if index >= 26 {
        push_column_name(name, index / 26 - 1);
    }
    let letter: u8 = (index % 26) as u8;
    name.push((65u8 + letter) as char);
}

/// The label of a column's header.
pub fn column_label(index: usize) -> (label: String)
    ensures
        label@ == column_letters(index as nat),
{
    column_name(index)
}

/// The `A1` notation of a cell.
pub open spec fn cell_label_spec(row: nat, col: nat) -> Seq<char> {
    column_letters(col) + decimal(row + 1)
}

/// The `A1` notation of a cell.
pub fn cell_label(row: usize, col: usize) -> (label: String)
    requires
        row < usize::MAX,
    ensures
        label@ == cell_label_spec(row as nat, col as nat),
{
    let mut label = column_name(col);
    push_decimal(&mut label, (row + 1) as u64);
    label
}

/// What a cell reference says, with the row cut off above the word size.
pub(crate) struct ReferenceParts {
    /// The column number, unless it exceeds the word size.
    pub(crate) column: Option<usize>,
    /// The row number, unless it exceeds the word size.
    pub(crate) row: Option<usize>,
    pub(crate) has_digits: bool,
}

/// Gathers the letters and the digits of the part of `chars` from `start` up to
/// `end`.
pub(crate) fn reference_parts(chars: &Vec<char>, start: usize, end: usize) -> (parts: ReferenceParts)
    requires
        start <= end <= chars@.len(),
    ensures
        ({
            let text = chars@.subrange(start as int, end as int);
            &&& match parts.column {
                Some(column) => column == column_number(text),
                None => column_number(text) > usize::MAX,
            }
            &&& match parts.row {
                Some(row) => row == digits_value(row_digits(text), 10),
                None => digits_value(row_digits(text), 10) > usize::MAX,
            }
            &&& parts.has_digits == (row_digits(text).len() > 0)
        }),
{
    let ghost text = chars@.subrange(start as int, end as int);
    let mut column: Option<usize> = Some(0);
    let mut row: Option<usize> = Some(0);
    let mut has_digits: bool = false;
    let mut index: usize = start;
    while index < end
        invariant
            start <= index <= end <= chars@.len(),
            text == chars@.subrange(start as int, end as int),
            match column {
                Some(column) => column == column_number(text.take(index - start)),
                None => column_number(text.take(index - start)) > usize::MAX,
            },
            match row {
                Some(row) => row == digits_value(row_digits(text.take(index - start)), 10),
                None => digits_value(row_digits(text.take(index - start)), 10) > usize::MAX,
            },
            has_digits == (row_digits(text.take(index - start)).len() > 0),
        decreases end - index,
    {
        let ch = chars[index];
        proof {
            let longer = text.take(index - start + 1);
            assert(longer.drop_last() == text.take(index - start));
            assert(longer.last() == ch);
            let digits = row_digits(text.take(index - start));
            assert(digits.push(ch).drop_last() == digits);
        }
        if 'A' <= ch && ch <= 'Z' {
            column = shifted(column, 26, (ch as u32 - 'A' as u32 + 1) as usize);
        } else if 'a' <= ch && ch <= 'z' {
            column = shifted(column, 26, (ch as u32 - 'a' as u32 + 1) as usize);
        } else if is_decimal_digit(ch) {
            row = shifted(row, 10, (ch as u32 - '0' as u32) as usize);
            has_digits = true;
        }
        index += 1;
    }
    assert(text.take(index - start) == text);
    ReferenceParts { column, row, has_digits }
}

/// A number with one more digit, unless it exceeds the word size.
fn shifted(number: Option<usize>, base: usize, digit: usize) -> (next: Option<usize>)
    requires
        10 <= base <= 26,
        digit <= 26,
    ensures
        match (number, next) {
            (Some(number), Some(next)) => next == number * base + digit,
            (Some(number), None) => number * base + digit > usize::MAX,
            (None, next) => next is None,
        },
{
    match number {
        None => None,
        Some(number) => {
            proof {
                assert(0 <= number * base <= usize::MAX * 26) by (nonlinear_arith)
                    requires
                        number <= usize::MAX,
                        base <= 26,
                ;
            }
            let next: u128 = number as u128 * base as u128 + digit as u128;
            if next <= usize::MAX as u128 {
                Some(next as usize)
            } else {
                None
            }
        },
    }
}

/// Reads a cell reference from a part of `chars`; `None` on the outside where
/// its column does not fit the machine's word.
fn indices_between(chars: &Vec<char>, start: usize, end: usize) -> (indices: Option<
    Option<(usize, usize)>,
>)
    requires
        start <= end <= chars@.len(),
    ensures
        match indices {
            Some(indices) => column_fits(chars@.subrange(start as int, end as int)) && indices
                == reference_indices(chars@.subrange(start as int, end as int)),
            None => !column_fits(chars@.subrange(start as int, end as int)),
        },
{
    let parts = reference_parts(chars, start, end);
    let column: usize = match parts.column {
        Some(column) => column,
        None => {
            return None;
        },
    };
    let row: usize = match parts.row {
        Some(row) => row,
        None => {
            return Some(None);
        },
    };
    if parts.has_digits && row >= 1 && column >= 1 {
        Some(Some((row - 1, column - 1)))
    } else {
        Some(None)
    }
}

/// Reads a cell reference; `None` on the outside where its column does not fit
/// the machine's word.
pub fn checked_cell_ref(cell_ref: &str) -> (indices: Option<Option<(usize, usize)>>)
    ensures
        match indices {
            Some(indices) => column_fits(cell_ref@) && indices == reference_indices(cell_ref@),
            None => !column_fits(cell_ref@),
        },
{
    let chars = to_chars(cell_ref);
    assert(chars@.subrange(0, chars@.len() as int) == chars@);
    indices_between(&chars, 0, chars.len())
}

/// The row and column, counted from zero, that a cell reference denotes.
pub fn cell_ref_to_indices(cell_ref: &str) -> (indices: Option<(usize, usize)>)
    requires
        column_fits(cell_ref@),
    ensures
        indices == reference_indices(cell_ref@),
{
    match checked_cell_ref(cell_ref) {
        Some(indices) => indices,
        None => None,
    }
}

/// The two halves of a range reference, without surrounding white space.
pub open spec fn merge_corners(reference: Seq<char>) -> Option<(Seq<char>, Seq<char>)> {
    match first_index(reference, ':') {
        Some(index) => Some((trimmed(reference.take(index)), trimmed(reference.skip(index + 1)))),
        None => None,
    }
}

/// Whether the columns that have to be read fit the machine's word: that of the
/// second corner only has to be read where the first corner is a reference.
pub open spec fn merge_ref_fits(reference: Seq<char>) -> bool {
    match merge_corners(reference) {
        Some((start, end)) => column_fits(start) && (reference_indices(start) is Some
            ==> column_fits(end)),
        None => true,
    }
}

/// The range that a reference such as `A1:B2` denotes.
pub open spec fn merged_range(reference: Seq<char>) -> Option<CellRange> {
    match merge_corners(reference) {
        None => None,
        Some((start, end)) => match (reference_indices(start), reference_indices(end)) {
            (Some((start_row, start_col)), Some((end_row, end_col))) => Some(
                CellRange {
                    start: CellCoord { row: start_row, col: start_col },
                    end: CellCoord { row: end_row, col: end_col },
                },
            ),
            _ => None,
        },
    }
}

/// Reads a range reference; `None` on the outside where a column that has to be
/// read does not fit the machine's word.
pub fn checked_merge_ref(reference: &str) -> (range: Option<Option<CellRange>>)
    ensures
        match range {
            Some(range) => merge_ref_fits(reference@) && range == merged_range(reference@),
            None => !merge_ref_fits(reference@),
        },
{
    let chars = to_chars(reference);
    let colon: usize = find_from(&chars, 0, ':');
    proof {
        lemma_first_index(chars@, ':');
        if colon < chars@.len() {
            lemma_first_index_is(chars@, ':', colon as int);
        }
    }
    if colon == chars.len() {
        return Some(None);
    }
    assert(chars@.subrange(0, colon as int) == chars@.take(colon as int));
    assert(chars@.subrange(colon + 1, chars@.len() as int) == chars@.skip(colon + 1));
    let (start_first, start_last) = trim_bounds(&chars, 0, colon);
    let (end_first, end_last) = trim_bounds(&chars, colon + 1, chars.len());
    let (start_row, start_col) = match indices_between(&chars, start_first, start_last) {
        None => {
            return None;
        },
        Some(None) => {
            return Some(None);
        },
        Some(Some(indices)) => indices,
    };
    match indices_between(&chars, end_first, end_last) {
        None => None,
        Some(None) => Some(None),
        Some(Some((end_row, end_col))) => Some(
            Some(
                CellRange::new(
                    CellCoord::new(start_row, start_col),
                    CellCoord::new(end_row, end_col),
                ),
            ),
        ),
    }
}

/// Reads a reference such as `A1:B2` to a merged range.
pub fn parse_merge_ref(reference: &str) -> (range: Option<CellRange>)
    requires
        merge_ref_fits(reference@),
    ensures
        range == merged_range(reference@),
{
    match checked_merge_ref(reference) {
        Some(range) => range,
        None => None,
    }
}

/// Whether a text is made of upper-case ASCII letters.
pub open spec fn all_upper(text: Seq<char>) -> bool {
    forall|i: int| 0 <= i < text.len() ==> 'A' <= #[trigger] text[i] <= 'Z'
}

/// A column's name is made of capitals and spells the column's number.
pub proof fn column_name_spells_its_number(index: nat)
    ensures
        all_upper(column_letters(index)),
        column_letters(index).len() > 0,
        column_number(column_letters(index)) == index + 1,
    decreases index,
{
    let letters = column_letters(index);
    if index < 26 {
        assert(letters.drop_last() == Seq::<char>::empty());
        assert(column_number(letters.drop_last()) == 0);
    } else {
        let head = (index / 26 - 1) as nat;
        column_name_spells_its_number(head);
        assert(letters.drop_last() == column_letters(head));
    }
}

/// Every text of capitals is the name of the column whose number it spells, so
/// different columns have different names and no name is left over.
pub proof fn capitals_name_a_column(text: Seq<char>)
    requires
        all_upper(text),
        text.len() > 0,
    ensures
        column_number(text) >= 1,
        column_letters((column_number(text) - 1) as nat) == text,
    decreases text.len(),
{
    let head = text.drop_last();
    let digit = letter_value(text.last());
    assert('A' <= text[text.len() - 1] <= 'Z');
    assert(column_letter((digit - 1) as nat) == text.last());
    assert(head.push(text.last()) == text);
    if head.len() == 0 {
        assert(column_number(head) == 0);
        assert(text == seq![text.last()]);
    } else {
        assert(all_upper(head)) by {
            assert forall|i: int| 0 <= i < head.len() implies 'A' <= #[trigger] head[i] <= 'Z' by {
                assert(head[i] == text[i]);
            }
        }
        capitals_name_a_column(head);
        let index = (column_number(text) - 1) as nat;
        let rest = (column_number(head) - 1) as nat;
        assert(index == (rest + 1) * 26 + (digit - 1));
        assert(index / 26 == rest + 1);
        assert(index % 26 == digit - 1);
    }
}

/// Behind digits, letters are all that has been passed over.
proof fn lemma_reference_split(letters: Seq<char>, digits: Seq<char>)
    requires
        all_upper(letters),
        all_digits(digits, 10),
    ensures
        column_number(letters + digits) == column_number(letters),
        row_digits(letters + digits) == digits,
    decreases digits.len(), letters.len(),
{
    let text = letters + digits;
    if digits.len() > 0 {
        let shorter = digits.drop_last();
        assert(text.drop_last() == letters + shorter);
        assert(text.last() == digits[digits.len() - 1]);
        assert(all_digits(shorter, 10));
        lemma_reference_split(letters, shorter);
        assert(shorter.push(digits.last()) == digits);
    } else if letters.len() > 0 {
        assert(text == letters);
        let shorter = letters.drop_last();
        assert(all_upper(shorter));
        assert('A' <= letters[letters.len() - 1] <= 'Z');
        lemma_reference_split(shorter, digits);
        assert(shorter + digits == shorter);
    }
}

/// A cell's label refers to that cell.
pub proof fn label_refers_to_its_cell(row: usize, col: usize)
    requires
        row < usize::MAX,
    ensures
        reference_indices(cell_label_spec(row as nat, col as nat)) == Some((row, col)),
        column_number(cell_label_spec(row as nat, col as nat)) == col + 1,
{
    column_name_spells_its_number(col as nat);
    crate::numbers::digits_denote_their_number((row + 1) as nat, 10);
    lemma_reference_split(column_letters(col as nat), decimal((row + 1) as nat));
}

proof fn lemma_passed_over(before: Seq<char>, passed: char, behind: Seq<char>)
    requires
        !is_letter(passed),
        !is_digit_of(passed, 10),
    ensures
        column_number(before.push(passed) + behind) == column_number(before + behind),
        row_digits(before.push(passed) + behind) == row_digits(before + behind),
    decreases behind.len(),
{
    let (longer, shorter) = (before.push(passed) + behind, before + behind);
    if behind.len() == 0 {
        assert(longer =~= before.push(passed));
        assert(shorter =~= before);
        assert(longer.drop_last() =~= before);
    } else {
        assert(longer.drop_last() =~= before.push(passed) + behind.drop_last());
        assert(shorter.drop_last() =~= before + behind.drop_last());
        lemma_passed_over(before, passed, behind.drop_last());
    }
}

/// Characters that are neither letters nor digits do not count in a reference, the dollar sign
/// of an absolute one among them.
pub proof fn references_pass_over_other_characters(
    before: Seq<char>,
    passed: char,
    behind: Seq<char>,
)
    requires
        !('A' <= passed <= 'Z'),
        !('a' <= passed <= 'z'),
        !('0' <= passed <= '9'),
    ensures
        reference_indices(before.push(passed) + behind) == reference_indices(before + behind),
{
    lemma_passed_over(before, passed, behind);
}

proof fn lemma_lowered_reference(text: Seq<char>)
    ensures
        column_number(ascii_lowered(text)) == column_number(text),
        row_digits(ascii_lowered(text)) == row_digits(text),
    decreases text.len(),
{
    if text.len() > 0 {
        lemma_lowered_reference(text.drop_last());
        lowering_changes_capitals_only(text, text.len() - 1);
        assert(ascii_lowered(text).drop_last() =~= ascii_lowered(text.drop_last()));
    }
}

/// A reference in small letters refers to the same cell.
pub proof fn references_do_not_depend_on_case(text: Seq<char>)
    ensures
        reference_indices(ascii_lowered(text)) == reference_indices(text),
{
    lemma_lowered_reference(text);
}

/// Two labels with a colon between them stand for the rectangle with these corners. A text
/// without a colon stands for none.
pub proof fn labels_name_a_merged_range(start: CellCoord, end: CellCoord)
    requires
        start.row < usize::MAX,
        end.row < usize::MAX,
    ensures
        merged_range(
            cell_label_spec(start.row as nat, start.col as nat).push(':') + cell_label_spec(
                end.row as nat,
                end.col as nat,
            ),
        ) == Some(CellRange { start, end }),
        start.col < usize::MAX && end.col < usize::MAX ==> merge_ref_fits(
            cell_label_spec(start.row as nat, start.col as nat).push(':') + cell_label_spec(
                end.row as nat,
                end.col as nat,
            ),
        ),
        merged_range(cell_label_spec(start.row as nat, start.col as nat)) is None,
{
    let first = cell_label_spec(start.row as nat, start.col as nat);
    let second = cell_label_spec(end.row as nat, end.col as nat);
    let text = first.push(':') + second;
    lemma_label_characters(start.row as nat, start.col as nat);
    lemma_label_characters(end.row as nat, end.col as nat);
    label_refers_to_its_cell(start.row, start.col);
    label_refers_to_its_cell(end.row, end.col);
    assert forall|i: int| 0 <= i < first.len() implies text[i] != ':' by {
        assert(text[i] == first[i]);
    }
    lemma_first_index_is(text, ':', first.len() as int);
    assert(text.take(first.len() as int) =~= first);
    assert(text.skip(first.len() as int + 1) =~= second);
    lemma_first_index(first, ':');
    assert forall|i: int| 0 <= i < first.len() implies first[i] != ':' by {}
}

/// A label is made of capitals and digits, and there is nothing to trim.
proof fn lemma_label_characters(row: nat, col: nat)
    ensures
        cell_label_spec(row, col).len() > 0,
        forall|i: int|
            0 <= i < cell_label_spec(row, col).len() ==> ('A' <= #[trigger] cell_label_spec(
                row,
                col,
            )[i] <= 'Z' || '0' <= cell_label_spec(row, col)[i] <= '9'),
        trimmed(cell_label_spec(row, col)) == cell_label_spec(row, col),
{
    let label = cell_label_spec(row, col);
    let (letters, digits) = (column_letters(col), decimal(row + 1));
    column_name_spells_its_number(col);
    crate::numbers::digits_denote_their_number(row + 1, 10);
    assert forall|i: int| 0 <= i < label.len() implies ('A' <= #[trigger] label[i] <= 'Z' || '0'
        <= label[i] <= '9') by {
        if i < letters.len() {
            assert(label[i] == letters[i]);
        } else {
            assert(label[i] == digits[i - letters.len()]);
            assert(is_digit_of(digits[i - letters.len()], 10));
        }
    }
    assert(!is_white_space(label[0]));
    assert(!is_white_space(label[label.len() - 1]));
}

} // verus!
