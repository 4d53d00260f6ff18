//! How many lines a text takes.

use vstd::prelude::*;

use crate::cell::{cells_view, CellData, CellView};
use crate::text::{contains_char, to_chars};

verus! {

/// How many lines a line of `length` characters takes where `capacity` fit in
/// one; an empty line takes one too.
pub open spec fn wrapped_lines(length: nat, capacity: nat) -> nat {
    if length == 0 {
        1
    } else {
        ((length + capacity - 1) / capacity as int) as nat
    }
}

/// How many lines a line of text takes where `capacity` characters fit in one.
pub fn wrapped_line_count(length: usize, capacity: usize) -> (count: usize)
    requires
        capacity > 0,
    ensures
        count == wrapped_lines(length as nat, capacity as nat),
        1 <= count,
        count <= length || count == 1,
{
    if length == 0 {
        return 1;
    }
    proof {
        let (n, c) = (length as int, capacity as int);
        let (q, r) = (n / c, n % c);
        vstd::arithmetic::div_mod::lemma_fundamental_div_mod(n, c);
        assert(c * q >= q) by (nonlinear_arith)
            requires
                c >= 1,
                q >= 0,
        ;
        if r > 0 {
            assert((q + 1) * c + (r - 1) == n + c - 1) by (nonlinear_arith)
                requires
                    n == c * q + r,
            ;
            vstd::arithmetic::div_mod::lemma_fundamental_div_mod_converse(
                n + c - 1,
                c,
                q + 1,
                r - 1,
            );
        } else {
            assert(q > 0) by (nonlinear_arith)
                requires
                    n == c * q + r,
                    r == 0,
                    n > 0,
                    c > 0,
            ;
            assert(q * c + (c - 1) == n + c - 1) by (nonlinear_arith)
                requires
                    n == c * q + r,
                    r == 0,
            ;
            vstd::arithmetic::div_mod::lemma_fundamental_div_mod_converse(n + c - 1, c, q, c - 1);
        }
    }
    if length % capacity > 0 {
        length / capacity + 1
    } else {
        length / capacity
    }
}

/// The pieces of a text between the separators.
pub open spec fn pieces(text: Seq<char>, separator: char) -> Seq<Seq<char>>
    decreases text.len(),
{
    if text.len() == 0 {
        seq![Seq::<char>::empty()]
    } else {
        let earlier = pieces(text.drop_last(), separator);
        if text.last() == separator {
            earlier.push(Seq::empty())
        } else {
            earlier.drop_last().push(earlier.last().push(text.last()))
        }
    }
}

/// The lines of all pieces together, wrapped or not.
pub open spec fn total_lines(pieces: Seq<Seq<char>>, wrap: bool, capacity: nat) -> nat
    decreases pieces.len(),
{
    if pieces.len() == 0 {
        0
    } else {
        total_lines(pieces.drop_last(), wrap, capacity) + if wrap {
            wrapped_lines(pieces.last().len(), capacity)
        } else {
            1
        }
    }
}

/// How many lines a cell's text takes: one, unless it holds line breaks or is to
/// be wrapped.
pub open spec fn cell_lines(cell: CellView, capacity: nat) -> nat {
    if cell.value.len() == 0 || (!cell.style.wrap_text && !cell.value.contains('\n')) {
        1
    } else {
        total_lines(pieces(cell.value, '\n'), cell.style.wrap_text, capacity)
    }
}

/// A number cut off at the machine's word.
pub open spec fn word_capped(number: nat) -> nat {
    if number > usize::MAX {
        usize::MAX as nat
    } else {
        number
    }
}

/// How many lines a cell's text takes where `capacity` characters fit in one.
pub fn estimated_cell_line_count(cell: &CellData, capacity: usize) -> (count: usize)
    requires
        capacity > 0,
    ensures
        count == word_capped(cell_lines(cell@, capacity as nat)),
        count >= 1,
{
    let wrap = cell.style.wrap_text;
    if cell.is_blank() || (!wrap && !contains_char(cell.value.as_str(), '\n')) {
        return 1;
    }
    let chars = to_chars(cell.value.as_str());
    let ghost text = cell.value@;
    let mut lines: u128 = 0;
    let mut length: usize = 0;
    let mut index: usize = 0;
    proof {
        assert(text.take(0) == Seq::<char>::empty());
        assert(pieces(text.take(0), '\n') == seq![Seq::<char>::empty()]);
        assert(seq![Seq::<char>::empty()].drop_last() == Seq::<Seq<char>>::empty());
        assert(total_lines(Seq::<Seq<char>>::empty(), wrap, capacity as nat) == 0);
    }
    while index < chars.len()
        invariant
            capacity > 0,
            index <= chars@.len(),
            chars@ == text,
            length <= index,
            lines <= index,
            pieces(text.take(index as int), '\n').len() > 0,
            length == pieces(text.take(index as int), '\n').last().len(),
            lines == total_lines(
                pieces(text.take(index as int), '\n').drop_last(),
                wrap,
                capacity as nat,
            ),
            lines + length <= index,
        decreases chars@.len() - index,
    {
        let ghost shorter = text.take(index as int);
        let ghost longer = text.take(index + 1);
        let ghost before = pieces(shorter, '\n');
        proof {
            assert(longer.drop_last() == shorter);
            assert(longer.last() == text[index as int]);
        }
        if chars[index] == '\n' {
            assert(pieces(longer, '\n').drop_last() == before);
            let added: usize = if wrap {
                wrapped_line_count(length, capacity)
            } else {
                1
            };
            lines = lines + added as u128;
            length = 0;
        } else {
            assert(pieces(longer, '\n').drop_last() == before.drop_last());
            length += 1;
        }
        index += 1;
    }
    assert(text.take(index as int) == text);
    let added: usize = if wrap {
        wrapped_line_count(length, capacity)
    } else {
        1
    };
    lines = lines + added as u128;
    if lines > usize::MAX as u128 {
        usize::MAX
    } else {
        lines as usize
    }
}

/// How many lines the tallest of the first cells of a row takes, at least one.
pub open spec fn tallest(row: Seq<CellView>, capacities: Seq<usize>) -> nat
    decreases row.len(),
{
    if row.len() == 0 {
        1
    } else {
        let earlier = tallest(row.drop_last(), capacities);
        let last = word_capped(cell_lines(row.last(), capacities[row.len() - 1] as nat));
        if last > earlier {
            last
        } else {
            earlier
        }
    }
}

/// How many lines a row of cells takes, given how many characters fit in a line
/// of each column.
pub fn row_line_count(row: &Vec<CellData>, capacities: &Vec<usize>) -> (count: usize)
    requires
        row@.len() <= capacities@.len(),
        forall|i: int| 0 <= i < capacities@.len() ==> #[trigger] capacities@[i] > 0,
    ensures
        count == tallest(cells_view(row@), capacities@),
        count >= 1,
{
    let ghost views = cells_view(row@);
    let mut count: usize = 1;
    let mut index: usize = 0;
    while index < row.len()
        invariant
            index <= row@.len() <= capacities@.len(),
            views == cells_view(row@),
            forall|i: int| 0 <= i < capacities@.len() ==> #[trigger] capacities@[i] > 0,
            count == tallest(views.take(index as int), capacities@),
            count >= 1,
        decreases row@.len() - index,
    {
        assert(views.take(index + 1).drop_last() == views.take(index as int));
        let lines: usize = estimated_cell_line_count(&row[index], capacities[index]);
        if lines > count {
            count = lines;
        }
        index += 1;
    }
    assert(views.take(index as int) == views);
    count
}

/// How many lines a text has.
pub fn line_count(text: &str) -> (count: usize)
    ensures
        count == word_capped(pieces(text@, '\n').len()),
        count >= 1,
{
    let chars = to_chars(text);
    let mut breaks: usize = 0;
    let mut index: usize = 0;
    assert(text@.take(0) == Seq::<char>::empty());
    while index < chars.len()
        invariant
            index <= chars@.len(),
            chars@ == text@,
            breaks <= index,
            pieces(text@.take(index as int), '\n').len() == breaks + 1,
        decreases chars@.len() - index,
    {
        assert(text@.take(index + 1).drop_last() == text@.take(index as int));
        if chars[index] == '\n' {
            breaks += 1;
        }
        index += 1;
    }
    assert(text@.take(index as int) == text@);
    if breaks == usize::MAX {
        usize::MAX
    } else {
        breaks + 1
    }
}

/// A line is wrapped into as few lines as hold it, and into one at least.
pub proof fn wrapped_lines_are_as_few_as_hold_the_text(length: nat, capacity: nat)
    requires
        capacity > 0,
    ensures
        wrapped_lines(length, capacity) >= 1,
        wrapped_lines(length, capacity) * capacity >= length,
        wrapped_lines(length, capacity) > 1 ==> (wrapped_lines(length, capacity) - 1) * capacity
            < length,
{
    if length > 0 {
        let lines = (length + capacity - 1) / capacity as int;
        assert(lines * capacity >= length && (lines - 1) * capacity < length && lines >= 1)
            by (nonlinear_arith)
            requires
                capacity > 0,
                length > 0,
                lines == (length + capacity - 1) / capacity as int,
        ;
    }
}

/// How often a character occurs in a text.
pub open spec fn occurrences(text: Seq<char>, wanted: char) -> nat {
    text.filter(|c: char| c == wanted).len()
}

proof fn lemma_pieces_are_counted(text: Seq<char>, separator: char)
    ensures
        pieces(text, separator).len() == occurrences(text, separator) + 1,
    decreases text.len(),
{
    reveal(Seq::filter);
    if text.len() > 0 {
        lemma_pieces_are_counted(text.drop_last(), separator);
    }
}

proof fn lemma_unwrapped_lines(pieces: Seq<Seq<char>>, capacity: nat)
    ensures
        total_lines(pieces, false, capacity) == pieces.len(),
    decreases pieces.len(),
{
    if pieces.len() > 0 {
        lemma_unwrapped_lines(pieces.drop_last(), capacity);
    }
}

/// A text that is not wrapped takes one line more than it has line breaks, an empty one too. A
/// text without line breaks that is wrapped takes the lines that hold it.
pub proof fn line_breaks_begin_lines(cell: CellView, capacity: nat)
    requires
        capacity > 0,
    ensures
        pieces(cell.value, '\n').len() == occurrences(cell.value, '\n') + 1,
        !cell.style.wrap_text ==> cell_lines(cell, capacity) == occurrences(cell.value, '\n') + 1,
        cell.style.wrap_text && occurrences(cell.value, '\n') == 0 ==> cell_lines(cell, capacity)
            == wrapped_lines(cell.value.len(), capacity),
{
    lemma_pieces_are_counted(cell.value, '\n');
    lemma_unwrapped_lines(pieces(cell.value, '\n'), capacity);
    if !cell.value.contains('\n') {
        lemma_no_piece_ends(cell.value, '\n');
        let parts = pieces(cell.value, '\n');
        assert(parts.drop_last() =~= Seq::<Seq<char>>::empty());
        assert(total_lines(parts.drop_last(), true, capacity) == 0);
        assert(parts.last() == cell.value);
    } else {
        lemma_occurring(cell.value, '\n');
    }
}

proof fn lemma_occurring(text: Seq<char>, wanted: char)
    requires
        text.contains(wanted),
    ensures
        occurrences(text, wanted) > 0,
    decreases text.len(),
{
    reveal(Seq::filter);
    if text.last() != wanted {
        let index = choose|i: int| 0 <= i < text.len() && text[i] == wanted;
        assert(text.drop_last()[index] == wanted);
        lemma_occurring(text.drop_last(), wanted);
    }
}

proof fn lemma_no_piece_ends(text: Seq<char>, separator: char)
    requires
        !text.contains(separator),
    ensures
        pieces(text, separator) == seq![text],
        occurrences(text, separator) == 0,
    decreases text.len(),
{
    reveal(Seq::filter);
    if text.len() > 0 {
        assert(text.last() == text[text.len() - 1]);
        assert forall|i: int| 0 <= i < text.drop_last().len() implies text.drop_last()[i]
            != separator by {
            assert(text[i] == text.drop_last()[i]);
        }
        lemma_no_piece_ends(text.drop_last(), separator);
        assert(text.drop_last().push(text.last()) =~= text);
        assert(pieces(text, separator) =~= seq![text]);
    } else {
        assert(text =~= Seq::<char>::empty());
        assert(pieces(text, separator) =~= seq![text]);
    }
}

/// A text that is wrapped takes the lines of the part before a line break and of the part
/// behind it, each wrapped on its own.
pub proof fn wrapped_parts_take_their_own_lines(before: Seq<char>, behind: Seq<char>, capacity: nat)
    requires
        capacity > 0,
        !behind.contains('\n'),
    ensures
        total_lines(pieces(before.push('\n') + behind, '\n'), true, capacity) == total_lines(
            pieces(before, '\n'),
            true,
            capacity,
        ) + wrapped_lines(behind.len(), capacity),
    decreases behind.len(),
{
    let text = before.push('\n') + behind;
    if behind.len() == 0 {
        assert(text =~= before.push('\n'));
        assert(text.drop_last() =~= before);
        assert(pieces(text, '\n').drop_last() =~= pieces(before, '\n'));
    } else {
        let shorter = behind.drop_last();
        assert(behind.last() == behind[behind.len() - 1]);
        assert forall|i: int| 0 <= i < shorter.len() implies shorter[i] != '\n' by {
            assert(behind[i] == shorter[i]);
        }
        lemma_last_piece(before, shorter);
        assert(text.drop_last() =~= before.push('\n') + shorter);
        assert(text.last() == behind.last());
        assert(pieces(text, '\n').drop_last() =~= pieces(before, '\n'));
    }
}

proof fn lemma_last_piece(before: Seq<char>, behind: Seq<char>)
    requires
        !behind.contains('\n'),
    ensures
        pieces(before.push('\n') + behind, '\n') == pieces(before, '\n').push(behind),
    decreases behind.len(),
{
    let text = before.push('\n') + behind;
    if behind.len() == 0 {
        assert(behind =~= Seq::<char>::empty());
        assert(text =~= before.push('\n'));
        assert(text.drop_last() =~= before);
    } else {
        let shorter = behind.drop_last();
        assert(behind.last() == behind[behind.len() - 1]);
        assert forall|i: int| 0 <= i < shorter.len() implies shorter[i] != '\n' by {
            assert(behind[i] == shorter[i]);
        }
        lemma_last_piece(before, shorter);
        assert(text.drop_last() =~= before.push('\n') + shorter);
        assert(shorter.push(behind.last()) =~= behind);
        assert(pieces(text, '\n') =~= pieces(before, '\n').push(behind));
    }
}

/// A row takes as many lines as the cell in it that takes most, and one at least.
pub proof fn rows_are_as_tall_as_their_tallest_cell(row: Seq<CellView>, capacities: Seq<usize>)
    requires
        row.len() <= capacities.len(),
    ensures
        tallest(row, capacities) >= 1,
        forall|col: int|
            0 <= col < row.len() ==> tallest(row, capacities) >= word_capped(
                cell_lines(#[trigger] row[col], capacities[col] as nat),
            ),
        tallest(row, capacities) == 1 || exists|col: int|
            0 <= col < row.len() && tallest(row, capacities) == word_capped(
                cell_lines(#[trigger] row[col], capacities[col] as nat),
            ),
    decreases row.len(),
{
    if row.len() > 0 {
        let fewer = row.drop_last();
        rows_are_as_tall_as_their_tallest_cell(fewer, capacities);
        assert forall|col: int| 0 <= col < row.len() implies tallest(row, capacities)
            >= word_capped(cell_lines(#[trigger] row[col], capacities[col] as nat)) by {
            if col < fewer.len() {
                assert(fewer[col] == row[col]);
            }
        }
        if tallest(row, capacities) == tallest(fewer, capacities) {
            if tallest(fewer, capacities) > 1 {
                let col = choose|col: int|
                    0 <= col < fewer.len() && tallest(fewer, capacities) == word_capped(
                        cell_lines(#[trigger] fewer[col], capacities[col] as nat),
                    );
                assert(row[col] == fewer[col]);
            }
        } else {
            assert(row[row.len() - 1] == row.last());
        }
    }
}

} // verus!
