//! Cell coordinates and rectangular cell ranges.

use vstd::prelude::*;

verus! {

/// The position of a cell, counted from zero.
#[derive(Debug, Clone, Copy, PartialEq, Eq, Structural)]
pub struct CellCoord {
    pub row: usize,
    pub col: usize,
}

impl CellCoord {
    /// The cell in the given row and column.
    pub fn new(row: usize, col: usize) -> (coord: CellCoord)
        ensures
            coord == (CellCoord { row, col }),
    {
        CellCoord { row, col }
    }
}

/// A rectangle of cells, given by two opposite corners in any order.
#[derive(Debug, Clone, Copy, PartialEq, Eq, Structural)]
pub struct CellRange {
    pub start: CellCoord,
    pub end: CellCoord,
}

/// The smaller of two indices.
pub open spec fn lesser(left: usize, right: usize) -> usize {
    if left <= right {
        left
    } else {
        right
    }
}

/// The larger of two indices.
pub open spec fn greater(left: usize, right: usize) -> usize {
    if left <= right {
        right
    } else {
        left
    }
}

/// The smaller of two indices.
pub fn min_index(left: usize, right: usize) -> (least: usize)
    ensures
        least == lesser(left, right),
{
    if left <= right {
        left
    } else {
        right
    }
}

/// The larger of two indices.
pub fn max_index(left: usize, right: usize) -> (most: usize)
    ensures
        most == greater(left, right),
{
    if left <= right {
        right
    } else {
        left
    }
}

impl CellRange {
    /// The first row of the rectangle.
    pub open spec fn top_row(self) -> usize {
        lesser(self.start.row, self.end.row)
    }

    /// The last row of the rectangle.
    pub open spec fn bottom_row(self) -> usize {
        greater(self.start.row, self.end.row)
    }

    /// The first column of the rectangle.
    pub open spec fn left_col(self) -> usize {
        lesser(self.start.col, self.end.col)
    }

    /// The last column of the rectangle.
    pub open spec fn right_col(self) -> usize {
        greater(self.start.col, self.end.col)
    }

    /// Whether a row meets the rectangle.
    pub open spec fn has_row(self, row: int) -> bool {
        self.top_row() <= row <= self.bottom_row()
    }

    /// Whether a column meets the rectangle.
    pub open spec fn has_col(self, col: int) -> bool {
        self.left_col() <= col <= self.right_col()
    }

    /// Whether a cell lies in the rectangle.
    pub open spec fn has_cell(self, row: int, col: int) -> bool {
        self.has_row(row) && self.has_col(col)
    }

    /// The same rectangle by its upper left and lower right corners.
    pub open spec fn ordered(self) -> CellRange {
        CellRange {
            start: CellCoord { row: self.top_row(), col: self.left_col() },
            end: CellCoord { row: self.bottom_row(), col: self.right_col() },
        }
    }

    /// How many rows the rectangle has.
    pub open spec fn height(self) -> nat {
        (self.bottom_row() - self.top_row() + 1) as nat
    }

    /// How many columns the rectangle has.
    pub open spec fn width(self) -> nat {
        (self.right_col() - self.left_col() + 1) as nat
    }

    /// How many cells the rectangle has.
    pub open spec fn area(self) -> nat {
        self.height() * self.width()
    }

    /// The cells of the rectangle.
    pub open spec fn cells(self) -> Set<(int, int)> {
        Set::new(|cell: (int, int)| self.has_cell(cell.0, cell.1))
    }

    /// The range of one cell.
    pub fn single(coord: CellCoord) -> (range: CellRange)
        ensures
            range == (CellRange { start: coord, end: coord }),
    {
        CellRange { start: coord, end: coord }
    }

    /// The range between two corners.
    pub fn new(start: CellCoord, end: CellCoord) -> (range: CellRange)
        ensures
            range == (CellRange { start, end }),
    {
        CellRange { start, end }
    }

    /// The same rectangle by its upper left and lower right corners.
    pub fn normalized(self) -> (range: CellRange)
        ensures
            range == self.ordered(),
    {
        CellRange {
            start: CellCoord {
                row: min_index(self.start.row, self.end.row),
                col: min_index(self.start.col, self.end.col),
            },
            end: CellCoord {
                row: max_index(self.start.row, self.end.row),
                col: max_index(self.start.col, self.end.col),
            },
        }
    }

    /// Whether a cell lies in the rectangle.
    pub fn contains(self, row: usize, col: usize) -> (inside: bool)
        ensures
            inside == self.has_cell(row as int, col as int),
    {
        let normalized = self.normalized();
        row >= normalized.start.row && row <= normalized.end.row && col >= normalized.start.col
            && col <= normalized.end.col
    }

    /// Whether a row meets the rectangle.
    pub fn intersects_row(self, row: usize) -> (meets: bool)
        ensures
            meets == self.has_row(row as int),
    {
        let normalized = self.normalized();
        row >= normalized.start.row && row <= normalized.end.row
    }

    /// Whether a column meets the rectangle.
    pub fn intersects_col(self, col: usize) -> (meets: bool)
        ensures
            meets == self.has_col(col as int),
    {
        let normalized = self.normalized();
        col >= normalized.start.col && col <= normalized.end.col
    }

    /// The sides of a cell that lie on the rectangle's outline; none for a cell
    /// outside.
    pub open spec fn outline_sides(self, row: int, col: int) -> SelectionEdgeSides {
        let inside = self.has_cell(row, col);
        SelectionEdgeSides::of(
            inside && row == self.top_row(),
            inside && col == self.right_col(),
            inside && row == self.bottom_row(),
            inside && col == self.left_col(),
        )
    }

    /// The sides of a cell that lie on the rectangle's outline; none for a cell
    /// outside.
    pub fn edge_sides(self, row: usize, col: usize) -> (edges: SelectionEdgeSides)
        ensures
            edges == self.outline_sides(row as int, col as int),
            edges.has_top() == (self.has_cell(row as int, col as int) && row == self.top_row()),
            edges.has_right() == (self.has_cell(row as int, col as int) && col == self.right_col()),
            edges.has_bottom() == (self.has_cell(row as int, col as int) && row
                == self.bottom_row()),
            edges.has_left() == (self.has_cell(row as int, col as int) && col == self.left_col()),
    {
        let normalized = self.normalized();
        let mut edges = SelectionEdgeSides::default();
        proof {
            let inside = self.has_cell(row as int, col as int);
            let (top, right) = (row == self.top_row(), col == self.right_col());
            let (bottom, left) = (row == self.bottom_row(), col == self.left_col());
            sides_are_those_of_the_set(false, false, false, false);
            sides_are_those_of_the_set(top, false, false, false);
            sides_are_those_of_the_set(top, right, false, false);
            sides_are_those_of_the_set(top, right, bottom, false);
            sides_are_those_of_the_set(
                inside && top,
                inside && right,
                inside && bottom,
                inside && left,
            );
        }
        if !self.contains(row, col) {
            return edges;
        }
        if row == normalized.start.row {
            edges.insert_top();
        }
        if col == normalized.end.col {
            edges.insert_right();
        }
        if row == normalized.end.row {
            edges.insert_bottom();
        }
        if col == normalized.start.col {
            edges.insert_left();
        }
        edges
    }

    /// How many cells the rectangle has.
    pub fn cell_count(self) -> (count: usize)
        requires
            self.area() <= usize::MAX,
        ensures
            count == self.area(),
    {
        let normalized = self.normalized();
        proof {
            let (height, width) = (self.height(), self.width());
            assert(height <= height * width && width <= height * width) by (nonlinear_arith)
                requires
                    height >= 1,
                    width >= 1,
            ;
        }
        (normalized.end.row - normalized.start.row + 1) * (normalized.end.col - normalized.start.col
            + 1)
    }
}

/// A set of sides of a cell.
#[derive(Debug, Clone, Copy, PartialEq, Eq, Structural)]
pub struct SelectionEdgeSides(u8);

impl Default for SelectionEdgeSides {
    fn default() -> (edges: Self)
        ensures
            edges == SelectionEdgeSides::of(false, false, false, false),
            !edges.has_top() && !edges.has_right() && !edges.has_bottom() && !edges.has_left(),
    {
        proof {
            sides_are_those_of_the_set(false, false, false, false);
            assert(0u8 | 0u8 | 0u8 | 0u8 == 0u8) by (bit_vector);
        }
        SelectionEdgeSides(0)
    }
}

impl SelectionEdgeSides {
    #[verifier::type_invariant]
    spec fn only_four_sides(self) -> bool {
        self.0 < 16
    }

    /// The set of the given sides.
    pub closed spec fn of(top: bool, right: bool, bottom: bool, left: bool) -> SelectionEdgeSides {
        SelectionEdgeSides(
            (if top {
                1u8
            } else {
                0u8
            }) | (if right {
                2u8
            } else {
                0u8
            }) | (if bottom {
                4u8
            } else {
                0u8
            }) | (if left {
                8u8
            } else {
                0u8
            }),
        )
    }

    /// Whether the top side is in the set.
    pub closed spec fn has_top(self) -> bool {
        self.0 & 1 != 0
    }

    /// Whether the right side is in the set.
    pub closed spec fn has_right(self) -> bool {
        self.0 & 2 != 0
    }

    /// Whether the bottom side is in the set.
    pub closed spec fn has_bottom(self) -> bool {
        self.0 & 4 != 0
    }

    /// Whether the left side is in the set.
    pub closed spec fn has_left(self) -> bool {
        self.0 & 8 != 0
    }

    /// Puts the top side into the set.
    pub fn insert_top(&mut self)
        ensures
            *final(self) == SelectionEdgeSides::of(
                true,
                old(self).has_right(),
                old(self).has_bottom(),
                old(self).has_left(),
            ),
            final(self).has_top(),
            final(self).has_right() == old(self).has_right(),
            final(self).has_bottom() == old(self).has_bottom(),
            final(self).has_left() == old(self).has_left(),
    {
        proof {
            use_type_invariant(&*self);
            let bits = self.0;
            assert(bits < 16 ==> bits | 1 == (1u8 | (if bits & 2 != 0 { 2u8 } else { 0u8 }) | (if bits & 4 != 0 { 4u8 } else { 0u8 }) | (if bits & 8 != 0 { 8u8 } else { 0u8 }))) by (bit_vector);
            assert(bits < 16 ==> (bits | 1) < 16 && (bits | 1) & 1 != 0 && (bits | 1) & 2 == bits
                & 2 && (bits | 1) & 4 == bits & 4 && (bits | 1) & 8 == bits & 8) by (bit_vector);
        }
        self.0 = self.0 | 1;
    }

    /// Puts the right side into the set.
    pub fn insert_right(&mut self)
        ensures
            *final(self) == SelectionEdgeSides::of(
                old(self).has_top(),
                true,
                old(self).has_bottom(),
                old(self).has_left(),
            ),
            final(self).has_right(),
            final(self).has_top() == old(self).has_top(),
            final(self).has_bottom() == old(self).has_bottom(),
            final(self).has_left() == old(self).has_left(),
    {
        proof {
            use_type_invariant(&*self);
            let bits = self.0;
            assert(bits < 16 ==> bits | 2 == ((if bits & 1 != 0 { 1u8 } else { 0u8 }) | 2u8 | (if bits & 4 != 0 { 4u8 } else { 0u8 }) | (if bits & 8 != 0 { 8u8 } else { 0u8 }))) by (bit_vector);
            assert(bits < 16 ==> (bits | 2) < 16 && (bits | 2) & 2 != 0 && (bits | 2) & 1 == bits
                & 1 && (bits | 2) & 4 == bits & 4 && (bits | 2) & 8 == bits & 8) by (bit_vector);
        }
        self.0 = self.0 | 2;
    }

    /// Puts the bottom side into the set.
    pub fn insert_bottom(&mut self)
        ensures
            *final(self) == SelectionEdgeSides::of(
                old(self).has_top(),
                old(self).has_right(),
                true,
                old(self).has_left(),
            ),
            final(self).has_bottom(),
            final(self).has_top() == old(self).has_top(),
            final(self).has_right() == old(self).has_right(),
            final(self).has_left() == old(self).has_left(),
    {
        proof {
            use_type_invariant(&*self);
            let bits = self.0;
            assert(bits < 16 ==> bits | 4 == ((if bits & 1 != 0 { 1u8 } else { 0u8 }) | (if bits & 2 != 0 { 2u8 } else { 0u8 }) | 4u8 | (if bits & 8 != 0 { 8u8 } else { 0u8 }))) by (bit_vector);
            assert(bits < 16 ==> (bits | 4) < 16 && (bits | 4) & 4 != 0 && (bits | 4) & 1 == bits
                & 1 && (bits | 4) & 2 == bits & 2 && (bits | 4) & 8 == bits & 8) by (bit_vector);
        }
        self.0 = self.0 | 4;
    }

    /// Puts the left side into the set.
    pub fn insert_left(&mut self)
        ensures
            *final(self) == SelectionEdgeSides::of(
                old(self).has_top(),
                old(self).has_right(),
                old(self).has_bottom(),
                true,
            ),
            final(self).has_left(),
            final(self).has_top() == old(self).has_top(),
            final(self).has_right() == old(self).has_right(),
            final(self).has_bottom() == old(self).has_bottom(),
    {
        proof {
            use_type_invariant(&*self);
            let bits = self.0;
            assert(bits < 16 ==> bits | 8 == ((if bits & 1 != 0 { 1u8 } else { 0u8 }) | (if bits & 2 != 0 { 2u8 } else { 0u8 }) | (if bits & 4 != 0 { 4u8 } else { 0u8 }) | 8u8)) by (bit_vector);
            assert(bits < 16 ==> (bits | 8) < 16 && (bits | 8) & 8 != 0 && (bits | 8) & 1 == bits
                & 1 && (bits | 8) & 2 == bits & 2 && (bits | 8) & 4 == bits & 4) by (bit_vector);
        }
        self.0 = self.0 | 8;
    }

    /// Whether the top side is in the set.
    pub fn top(self) -> (has: bool)
        ensures
            has == self.has_top(),
    {
        self.0 & 1 != 0
    }

    /// Whether the right side is in the set.
    pub fn right(self) -> (has: bool)
        ensures
            has == self.has_right(),
    {
        self.0 & 2 != 0
    }

    /// Whether the bottom side is in the set.
    pub fn bottom(self) -> (has: bool)
        ensures
            has == self.has_bottom(),
    {
        self.0 & 4 != 0
    }

    /// Whether the left side is in the set.
    pub fn left(self) -> (has: bool)
        ensures
            has == self.has_left(),
    {
        self.0 & 8 != 0
    }

    /// Whether any side is in the set.
    pub fn any(self) -> (any: bool)
        ensures
            any == (self.has_top() || self.has_right() || self.has_bottom() || self.has_left()),
    {
        proof {
            use_type_invariant(&self);
            let bits = self.0;
            assert(bits < 16 ==> (bits != 0 <==> (bits & 1 != 0 || bits & 2 != 0 || bits & 4 != 0
                || bits & 8 != 0))) by (bit_vector);
        }
        self.0 != 0
    }
}

/// A set of sides holds the sides that it is made of. So sets with the same sides
/// are equal.
pub proof fn sides_are_those_of_the_set(top: bool, right: bool, bottom: bool, left: bool)
    ensures
        SelectionEdgeSides::of(top, right, bottom, left).has_top() == top,
        SelectionEdgeSides::of(top, right, bottom, left).has_right() == right,
        SelectionEdgeSides::of(top, right, bottom, left).has_bottom() == bottom,
        SelectionEdgeSides::of(top, right, bottom, left).has_left() == left,
{
    assert(({
        let first = (if top { 1u8 } else { 0u8 }) | (if right { 2u8 } else { 0u8 });
        let bits = first | (if bottom { 4u8 } else { 0u8 }) | (if left { 8u8 } else { 0u8 });
        &&& (bits & 1 != 0) == top
        &&& (bits & 2 != 0) == right
        &&& (bits & 4 != 0) == bottom
        &&& (bits & 8 != 0) == left
    })) by (bit_vector);
}

/// The outline does not depend on which corners a range is given by. A cell outside
/// of the range has no side on it, and the only cell of a range has all four.
pub proof fn outlines_do_not_depend_on_corners(range: CellRange, row: int, col: int, coord: CellCoord)
    ensures
        range.ordered().outline_sides(row, col) == range.outline_sides(row, col),
        (CellRange { start: range.end, end: range.start }).outline_sides(row, col)
            == range.outline_sides(row, col),
        !range.has_cell(row, col) ==> range.outline_sides(row, col) == SelectionEdgeSides::of(
            false,
            false,
            false,
            false,
        ),
        (CellRange { start: coord, end: coord }).outline_sides(coord.row as int, coord.col as int)
            == SelectionEdgeSides::of(true, true, true, true),
{
}

/// Normalizing changes neither the cells of a range nor a normalized range, and
/// does not depend on which corner came first.
pub proof fn normalizing_keeps_the_cells(range: CellRange)
    ensures
        range.ordered().cells() == range.cells(),
        range.ordered().ordered() == range.ordered(),
        (CellRange { start: range.end, end: range.start }).ordered() == range.ordered(),
        range.ordered().area() == range.area(),
{
    assert forall|cell: (int, int)| range.ordered().cells().contains(cell)
        == range.cells().contains(cell) by {}
    assert(range.ordered().cells() =~= range.cells());
}

/// The cells with an outline side are those of the range without an inner
/// neighbor: a cell of the range has no outline side exactly when all four of
/// its neighbors are in the range.
pub proof fn outline_cells_have_a_neighbor_outside(range: CellRange, row: int, col: int)
    requires
        range.has_cell(row, col),
    ensures
        row == range.top_row() <==> !range.has_cell(row - 1, col),
        row == range.bottom_row() <==> !range.has_cell(row + 1, col),
        col == range.left_col() <==> !range.has_cell(row, col - 1),
        col == range.right_col() <==> !range.has_cell(row, col + 1),
{
}

/// The cells of the first `rows` rows of a range.
spec fn leading_cells(range: CellRange, rows: nat) -> Set<(int, int)> {
    Set::new(
        |cell: (int, int)|
            range.top_row() <= cell.0 < range.top_row() + rows && range.has_col(cell.1),
    )
}

/// The cells of one row, from the first column on.
spec fn leading_row_cells(row: int, first: int, cols: nat) -> Set<(int, int)> {
    Set::new(|cell: (int, int)| cell.0 == row && first <= cell.1 < first + cols)
}

proof fn lemma_row_cells(row: int, first: int, cols: nat)
    ensures
        leading_row_cells(row, first, cols).finite(),
        leading_row_cells(row, first, cols).len() == cols,
    decreases cols,
{
    let cells = leading_row_cells(row, first, cols);
    if cols == 0 {
        assert(cells =~= Set::empty());
    } else {
        let fewer = (cols - 1) as nat;
        lemma_row_cells(row, first, fewer);
        assert(cells =~= leading_row_cells(row, first, fewer).insert((row, first + fewer)));
    }
}

proof fn lemma_leading_cells(range: CellRange, rows: nat)
    ensures
        leading_cells(range, rows).finite(),
        leading_cells(range, rows).len() == rows * range.width(),
    decreases rows,
{
    let cells = leading_cells(range, rows);
    let width = range.width();
    if rows == 0 {
        assert(cells =~= Set::empty());
        assert(0 * width == 0) by (nonlinear_arith);
    } else {
        let fewer = (rows - 1) as nat;
        let last = leading_row_cells(range.top_row() + fewer, range.left_col() as int, width);
        lemma_leading_cells(range, fewer);
        lemma_row_cells(range.top_row() + fewer, range.left_col() as int, width);
        assert(cells =~= leading_cells(range, fewer).union(last));
        assert(leading_cells(range, fewer).disjoint(last));
        vstd::set_lib::lemma_set_disjoint_lens(leading_cells(range, fewer), last);
        assert(rows * width == fewer * width + width) by (nonlinear_arith)
            requires
                rows == fewer + 1,
        ;
    }
}

/// The cell count of a range is the number of cells that lie in it.
pub proof fn area_counts_the_cells(range: CellRange)
    ensures
        range.cells().finite(),
        range.cells().len() == range.area(),
{
    lemma_leading_cells(range, range.height());
    assert(range.cells() =~= leading_cells(range, range.height()));
}

/// A range holds its two corners and what lies between them in both directions, and nothing
/// else; it is as tall and as wide as its corners are apart, both counted.
pub proof fn ranges_hold_what_lies_between_their_corners(range: CellRange, row: int, col: int)
    ensures
        range.has_cell(row, col) <==> (range.start.row <= row <= range.end.row || range.end.row
            <= row <= range.start.row) && (range.start.col <= col <= range.end.col || range.end.col
            <= col <= range.start.col),
        range.has_cell(range.start.row as int, range.start.col as int),
        range.has_cell(range.end.row as int, range.end.col as int),
        range.height() == 1 + if range.start.row <= range.end.row {
            range.end.row - range.start.row
        } else {
            range.start.row - range.end.row
        },
        range.width() == 1 + if range.start.col <= range.end.col {
            range.end.col - range.start.col
        } else {
            range.start.col - range.end.col
        },
        range.has_row(row) <==> exists|c: int| #[trigger] range.has_cell(row, c),
        range.has_col(col) <==> exists|r: int| #[trigger] range.has_cell(r, col),
{
    if range.has_row(row) {
        assert(range.has_cell(row, range.start.col as int));
    }
    if range.has_col(col) {
        assert(range.has_cell(range.start.row as int, col));
    }
}

/// A cell of a range has a side of the outline exactly where its neighbor on that side is not
/// in the range; a cell outside has none.
pub proof fn outlines_run_between_inside_and_outside(range: CellRange, row: int, col: int)
    ensures
        ({
            let sides = range.outline_sides(row, col);
            let inside = range.has_cell(row, col);
            &&& sides.has_top() <==> inside && !range.has_cell(row - 1, col)
            &&& sides.has_bottom() <==> inside && !range.has_cell(row + 1, col)
            &&& sides.has_left() <==> inside && !range.has_cell(row, col - 1)
            &&& sides.has_right() <==> inside && !range.has_cell(row, col + 1)
        }),
{
    let inside = range.has_cell(row, col);
    sides_are_those_of_the_set(
        inside && row == range.top_row(),
        inside && col == range.right_col(),
        inside && row == range.bottom_row(),
        inside && col == range.left_col(),
    );
    if inside {
        outline_cells_have_a_neighbor_outside(range, row, col);
    }
}

/// A normalized range begins with its upper left corner and ends with its lower right one.
pub proof fn normalized_ranges_begin_at_the_upper_left(range: CellRange, row: int, col: int)
    ensures
        range.ordered().start.row <= range.ordered().end.row,
        range.ordered().start.col <= range.ordered().end.col,
        range.has_cell(row, col) <==> range.ordered().start.row <= row <= range.ordered().end.row
            && range.ordered().start.col <= col <= range.ordered().end.col,
{
}

} // verus!
