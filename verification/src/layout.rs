//! Layouts: which rows and columns are in view and where text may spill over.
//!
//! Extents are compared here; they are added up by the caller, who hands the
//! running totals in.

use vstd::prelude::*;

use crate::cell::{CellData, CellRawValue, CellView};
use crate::merges::{MergeKind, SheetMerges};
use crate::pixels::Pixels;
use crate::range::CellRange;
use crate::sheet::{SheetData, SheetRowLayout, SheetRowLayoutView};

verus! {

/// The bit pattern of the least column width.
pub const MIN_COLUMN_WIDTH_BITS: u32 = 0x41c0_0000;

/// The bit pattern of the least row height.
pub const MIN_ROW_HEIGHT_BITS: u32 = 0x4190_0000;

/// How many columns beyond the visible ones are rendered on each side.
pub const COLUMN_RENDER_OVERSCAN: usize = 2;

/// How many rows beyond the visible ones are rendered on each side.
pub const ROW_RENDER_OVERSCAN: usize = 4;

/// A row height that is not below the least.
pub open spec fn at_least_min_height(height: Pixels) -> Pixels {
    height.greatest(Pixels { bits: MIN_ROW_HEIGHT_BITS })
}

/// A column width that is not below the least.
pub open spec fn at_least_min_width(width: Pixels) -> Pixels {
    width.greatest(Pixels { bits: MIN_COLUMN_WIDTH_BITS })
}

/// Row heights that are not below the least.
pub open spec fn clamped(heights: Seq<Pixels>) -> Seq<Pixels> {
    heights.map_values(|height: Pixels| at_least_min_height(height))
}

/// Makes row heights no lower than the least.
pub fn clamped_heights(heights: &Vec<Pixels>) -> (clamp: Vec<Pixels>)
    ensures
        clamp@ == clamped(heights@),
{
    let mut clamp: Vec<Pixels> = Vec::new();
    let mut index: usize = 0;
    while index < heights.len()
        invariant
            index <= heights@.len(),
            clamp@ == clamped(heights@).take(index as int),
        decreases heights@.len() - index,
    {
        clamp.push(heights[index].max(Pixels { bits: MIN_ROW_HEIGHT_BITS }));
        index += 1;
        assert(clamp@ =~= clamped(heights@).take(index as int));
    }
    assert(clamped(heights@).take(index as int) == clamped(heights@));
    clamp
}

/// Whether extents never decrease, and all are numbers.
pub open spec fn ascending(offsets: Seq<Pixels>) -> bool {
    forall|i: int, j: int|
        0 <= i <= j < offsets.len() ==> (#[trigger] offsets[i]).le(#[trigger] offsets[j])
}

/// How many of ascending extents are at most a position.
pub fn partition_point(offsets: &Vec<Pixels>, position: Pixels) -> (count: usize)
    requires
        ascending(offsets@),
    ensures
        count <= offsets@.len(),
        forall|i: int| 0 <= i < count ==> (#[trigger] offsets@[i]).le(position),
        forall|i: int| count <= i < offsets@.len() ==> !(#[trigger] offsets@[i]).le(position),
{
    let mut low: usize = 0;
    let mut high: usize = offsets.len();
    while low < high
        invariant
            low <= high <= offsets@.len(),
            ascending(offsets@),
            forall|i: int| 0 <= i < low ==> (#[trigger] offsets@[i]).le(position),
            forall|i: int| high <= i < offsets@.len() ==> !(#[trigger] offsets@[i]).le(position),
        decreases high - low,
    {
        let middle: usize = low + (high - low) / 2;
        if offsets[middle].is_at_most(position) {
            assert forall|i: int| 0 <= i < middle + 1 implies (#[trigger] offsets@[i]).le(
                position,
            ) by {
                assert(offsets@[i].le(offsets@[middle as int]));
            }
            low = middle + 1;
        } else {
            assert forall|i: int| middle <= i < offsets@.len() implies !(
            #[trigger] offsets@[i]).le(position) by {
                assert(offsets@[middle as int].le(offsets@[i]));
            }
            high = middle;
        }
    }
    low
}

/// A distance from the top of a sheet.
#[derive(Debug, Clone, Copy, PartialEq, Eq, Structural)]
pub enum Distance {
    Nothing,
    /// So many rows of the same height.
    Rows { count: usize, height: Pixels },
    /// An offset.
    Offset(Pixels),
}

/// How the rows of a sheet are laid out on the screen.
pub enum RowLayout {
    /// All rows have the same height.
    Uniform { row_count: usize, height: Pixels },
    /// Every row has a height of its own. Row `i` begins at offset `i`, and the
    /// last offset is where the last row ends.
    Explicit { row_heights: Vec<Pixels>, row_offsets: Vec<Pixels> },
}

/// The mathematical content of a [`RowLayout`].
#[verifier::ext_equal]
pub enum RowLayoutView {
    Uniform { row_count: nat, height: Pixels },
    Explicit { row_heights: Seq<Pixels>, row_offsets: Seq<Pixels> },
}

impl View for RowLayout {
    type V = RowLayoutView;

    open spec fn view(&self) -> RowLayoutView {
        match self {
            RowLayout::Uniform { row_count, height } => RowLayoutView::Uniform {
                row_count: *row_count as nat,
                height: *height,
            },
            RowLayout::Explicit { row_heights, row_offsets } => RowLayoutView::Explicit {
                row_heights: row_heights@,
                row_offsets: row_offsets@,
            },
        }
    }
}

impl RowLayoutView {
    /// How many rows there are.
    pub open spec fn count(self) -> nat {
        match self {
            RowLayoutView::Uniform { row_count, height } => row_count,
            RowLayoutView::Explicit { row_heights, row_offsets } => row_heights.len(),
        }
    }

    /// The height of a row; the least height behind the last row.
    pub open spec fn height(self, row: int) -> Pixels {
        match self {
            RowLayoutView::Uniform { row_count, height } => if row < row_count {
                height
            } else {
                Pixels { bits: MIN_ROW_HEIGHT_BITS }
            },
            RowLayoutView::Explicit { row_heights, row_offsets } => if row < row_heights.len() {
                row_heights[row]
            } else {
                Pixels { bits: MIN_ROW_HEIGHT_BITS }
            },
        }
    }

    /// The heights of all rows.
    pub open spec fn heights(self) -> Seq<Pixels> {
        Seq::new(self.count(), |row: int| self.height(row))
    }

    /// How far the end of the last row is from the top.
    pub open spec fn end(self) -> Distance {
        match self {
            RowLayoutView::Uniform { row_count, height } => Distance::Rows {
                count: row_count as usize,
                height,
            },
            RowLayoutView::Explicit { row_heights, row_offsets } => if row_offsets.len() == 0 {
                Distance::Nothing
            } else {
                Distance::Offset(row_offsets.last())
            },
        }
    }

    /// How far the start of a row is from the top: that of the last row where rows of the
    /// same height end before, nothing where there is no such row.
    pub open spec fn start(self, row: int) -> Distance {
        match self {
            RowLayoutView::Uniform { row_count, height } => if row_count == 0 {
                Distance::Nothing
            } else if row < row_count {
                Distance::Rows { count: row as usize, height }
            } else {
                Distance::Rows { count: (row_count - 1) as usize, height }
            },
            RowLayoutView::Explicit { row_heights, row_offsets } => if row < row_offsets.len() {
                Distance::Offset(row_offsets[row])
            } else {
                Distance::Nothing
            },
        }
    }

    /// Whether there is an offset for each row and one for the end, in order.
    pub open spec fn placed(self) -> bool {
        self matches RowLayoutView::Explicit { row_heights, row_offsets } ==> row_offsets.len()
            == row_heights.len() + 1 && ascending(row_offsets)
    }
}

/// The sizes from `start` up to `end`, as far as there are any.
pub open spec fn between(sizes: Seq<Pixels>, start: int, end: int) -> Seq<Pixels> {
    let last = if end <= sizes.len() {
        end
    } else {
        sizes.len() as int
    };
    sizes.subrange(
        if start <= last {
            start
        } else {
            last
        },
        last,
    )
}

/// The sizes up to a line and those behind it are all sizes, so that a pinned region and
/// the scrollable one make up the sheet.
pub proof fn regions_make_up_the_sheet(sizes: Seq<Pixels>, line: int)
    requires
        0 <= line,
    ensures
        between(sizes, 0, line) + between(sizes, line, sizes.len() as int) == sizes,
{
}

/// Row heights with updates applied one after the other; an update behind the
/// last row is passed over.
pub open spec fn updated_heights(
    heights: Seq<Pixels>,
    updates: Seq<(usize, Pixels)>,
) -> Seq<Pixels>
    decreases updates.len(),
{
    if updates.len() == 0 {
        heights
    } else {
        let earlier = updated_heights(heights, updates.drop_last());
        let (row, height) = updates.last();
        if row < earlier.len() {
            earlier.update(row as int, at_least_min_height(height))
        } else {
            earlier
        }
    }
}

/// Updating changes no count.
proof fn lemma_updated_len(heights: Seq<Pixels>, updates: Seq<(usize, Pixels)>)
    ensures
        updated_heights(heights, updates).len() == heights.len(),
    decreases updates.len(),
{
    if updates.len() > 0 {
        lemma_updated_len(heights, updates.drop_last());
    }
}

/// Applies updates to row heights.
fn apply_heights(heights: &mut Vec<Pixels>, updates: &Vec<(usize, Pixels)>)
    ensures
        final(heights)@ == updated_heights(old(heights)@, updates@),
{
    let ghost start = heights@;
    let mut index: usize = 0;
    assert(updates@.take(0) == Seq::<(usize, Pixels)>::empty());
    while index < updates.len()
        invariant
            index <= updates@.len(),
            heights@ == updated_heights(start, updates@.take(index as int)),
        decreases updates@.len() - index,
    {
        proof {
            assert(updates@.take(index + 1).drop_last() == updates@.take(index as int));
            assert(updates@.take(index + 1).last() == updates@[index as int]);
        }
        let (row, height) = updates[index];
        if row < heights.len() {
            heights.set(row, height.max(Pixels { bits: MIN_ROW_HEIGHT_BITS }));
        }
        index += 1;
    }
    assert(updates@.take(index as int) == updates@);
}

impl RowLayout {
    /// Lays rows out as a sheet asks, none lower than the least height. Rows with
    /// heights of their own also need their offsets.
    pub fn new(layout: &SheetRowLayout, row_offsets: Vec<Pixels>) -> (rows: RowLayout)
        ensures
            rows@ == match layout@ {
                SheetRowLayoutView::Uniform { row_count, height } => (RowLayoutView::Uniform {
                    row_count,
                    height: at_least_min_height(height),
                }),
                SheetRowLayoutView::Explicit { heights } => (RowLayoutView::Explicit {
                    row_heights: clamped(heights),
                    row_offsets: row_offsets@,
                }),
            },
    {
        match layout {
            SheetRowLayout::Uniform { row_count, height } => RowLayout::Uniform {
                row_count: *row_count,
                height: height.max(Pixels { bits: MIN_ROW_HEIGHT_BITS }),
            },
            SheetRowLayout::Explicit { heights } => RowLayout::from_explicit_heights(
                heights,
                row_offsets,
            ),
        }
    }

    /// Lays rows with heights of their own out, none lower than the least height.
    pub fn from_explicit_heights(row_heights: &Vec<Pixels>, row_offsets: Vec<Pixels>) -> (rows:
        RowLayout)
        ensures
            rows@ == (RowLayoutView::Explicit {
                row_heights: clamped(row_heights@),
                row_offsets: row_offsets@,
            }),
    {
        RowLayout::Explicit { row_heights: clamped_heights(row_heights), row_offsets }
    }

    /// How many rows there are.
    pub fn row_count(&self) -> (count: usize)
        ensures
            count == self@.count(),
    {
        match self {
            RowLayout::Uniform { row_count, .. } => *row_count,
            RowLayout::Explicit { row_heights, .. } => row_heights.len(),
        }
    }

    /// The height of a row; the least height behind the last row.
    pub fn row_height(&self, row: usize) -> (height: Pixels)
        ensures
            height == self@.height(row as int),
    {
        match self {
            RowLayout::Uniform { row_count, height } => if row < *row_count {
                *height
            } else {
                Pixels { bits: MIN_ROW_HEIGHT_BITS }
            },
            RowLayout::Explicit { row_heights, .. } => if row < row_heights.len() {
                row_heights[row]
            } else {
                Pixels { bits: MIN_ROW_HEIGHT_BITS }
            },
        }
    }

    /// How far the end of the last row is from the top.
    pub fn sheet_height(&self) -> (distance: Distance)
        ensures
            distance == self@.end(),
    {
        match self {
            RowLayout::Uniform { row_count, height } => Distance::Rows {
                count: *row_count,
                height: *height,
            },
            RowLayout::Explicit { row_offsets, .. } => if row_offsets.len() == 0 {
                Distance::Nothing
            } else {
                Distance::Offset(row_offsets[row_offsets.len() - 1])
            },
        }
    }

    /// How far the start of a row is from the top: that of the last row where rows of the
    /// same height end before, nothing where there is no such row.
    pub fn scroll_position_for_row(&self, row: usize) -> (distance: Distance)
        ensures
            distance == self@.start(row as int),
    {
        match self {
            RowLayout::Uniform { row_count, height } => if *row_count == 0 {
                Distance::Nothing
            } else if row < *row_count {
                Distance::Rows { count: row, height: *height }
            } else {
                Distance::Rows { count: *row_count - 1, height: *height }
            },
            RowLayout::Explicit { row_offsets, .. } => if row < row_offsets.len() {
                Distance::Offset(row_offsets[row])
            } else {
                Distance::Nothing
            },
        }
    }

    /// The row at a position on the screen, the first or the last where the
    /// position lies outside. For rows of the same height it has to be said how
    /// many of them fit before the position.
    pub fn row_at(&self, position: Pixels, fitting_rows: usize) -> (row: usize)
        requires
            self@.placed(),
        ensures
            self@.count() == 0 ==> row == 0,
            self@.count() > 0 ==> row < self@.count(),
            match self@ {
                RowLayoutView::Uniform { row_count, height } => row == if row_count == 0
                    || height.le(Pixels { bits: 0 }) {
                    0
                } else if fitting_rows < row_count {
                    fitting_rows as int
                } else {
                    row_count - 1
                },
                RowLayoutView::Explicit { row_heights, row_offsets } => row_heights.len() > 0
                    ==> (row > 0 ==> row_offsets[row as int].le(position)) && (row
                    < row_heights.len() - 1 ==> !row_offsets[row + 1].le(position)),
            },
    {
        match self {
            RowLayout::Uniform { row_count, height } => {
                if *row_count == 0 || height.is_at_most(Pixels { bits: 0 }) {
                    0
                } else if fitting_rows < *row_count {
                    fitting_rows
                } else {
                    *row_count - 1
                }
            },
            RowLayout::Explicit { row_heights, row_offsets } => {
                if row_heights.len() == 0 {
                    return 0;
                }
                let count: usize = partition_point(row_offsets, position);
                let row: usize = if count == 0 {
                    0
                } else {
                    count - 1
                };
                if row < row_heights.len() {
                    row
                } else {
                    row_heights.len() - 1
                }
            },
        }
    }

    /// Changes the heights of rows. It has to be said whether all the new heights
    /// are the same but for rounding. Tells whether the rows now have heights of
    /// their own whose offsets have to be set.
    pub fn set_row_heights(&mut self, updates: &Vec<(usize, Pixels)>, all_same: bool) -> (explicit:
        bool)
        ensures
            match old(self)@ {
                RowLayoutView::Uniform { row_count, height } => if updates@.len() == 0 {
                    final(self)@ == old(self)@ && !explicit
                } else if updates@.len() == row_count && all_same {
                    final(self)@ == (RowLayoutView::Uniform {
                        row_count,
                        height: at_least_min_height(updates@[0].1),
                    }) && !explicit
                } else {
                    final(self)@ == (RowLayoutView::Explicit {
                        row_heights: clamped(updated_heights(old(self)@.heights(), updates@)),
                        row_offsets: Seq::empty(),
                    }) && explicit
                },
                RowLayoutView::Explicit { row_heights, row_offsets } => final(self)@ == (
                RowLayoutView::Explicit {
                    row_heights: updated_heights(row_heights, updates@),
                    row_offsets,
                }) && explicit,
            },
            final(self)@ == rows_after(old(self)@, updates@, all_same),
            final(self)@.count() == old(self)@.count(),
    {
        proof {
            lemma_updated_len(self@.heights(), updates@);
            if let RowLayoutView::Explicit { row_heights, row_offsets } = self@ {
                lemma_updated_len(row_heights, updates@);
            }
        }
        match self {
            RowLayout::Uniform { row_count, height } => {
                if updates.len() == 0 {
                    return false;
                }
                if updates.len() == *row_count && all_same {
                    *height = updates[0].1.max(Pixels { bits: MIN_ROW_HEIGHT_BITS });
                    return false;
                }
                let (count, height) = (*row_count, *height);
                let ghost all = old(self)@.heights();
                let mut row_heights: Vec<Pixels> = Vec::new();
                let mut row: usize = 0;
                while row < count
                    invariant
                        row <= count,
                        all == Seq::new(count as nat, |row: int| height),
                        row_heights@ == all.take(row as int),
                    decreases count - row,
                {
                    row_heights.push(height);
                    row += 1;
                    assert(row_heights@ =~= all.take(row as int));
                }
                assert(row_heights@ =~= all);
                apply_heights(&mut row_heights, updates);
                *self = RowLayout::from_explicit_heights(&row_heights, Vec::new());
                true
            },
            RowLayout::Explicit { row_heights, row_offsets } => {
                apply_heights(row_heights, updates);
                true
            },
        }
    }

    /// Sets the offsets of rows with heights of their own.
    pub fn set_row_offsets(&mut self, offsets: Vec<Pixels>)
        ensures
            final(self)@ == match old(self)@ {
                RowLayoutView::Uniform { row_count, height } => old(self)@,
                RowLayoutView::Explicit { row_heights, row_offsets } => (RowLayoutView::Explicit {
                    row_heights,
                    row_offsets: offsets@,
                }),
            },
    {
        if let RowLayout::Explicit { row_heights, row_offsets } = self {
            *row_offsets = offsets;
        }
    }
}

/// How a sheet is laid out on the screen.
pub struct SheetLayout {
    pub column_widths: Vec<Pixels>,
    pub rows: RowLayout,
    pub pinned_rows: usize,
    pub pinned_columns: usize,
    pub merges: SheetMerges,
}

/// The mathematical content of a [`SheetLayout`].
#[verifier::ext_equal]
pub struct SheetLayoutView {
    pub column_widths: Seq<Pixels>,
    pub rows: RowLayoutView,
    pub pinned_rows: nat,
    pub pinned_columns: nat,
    pub merges: Seq<CellRange>,
}

impl View for SheetLayout {
    type V = SheetLayoutView;

    open spec fn view(&self) -> SheetLayoutView {
        SheetLayoutView {
            column_widths: self.column_widths@,
            rows: self.rows@,
            pinned_rows: self.pinned_rows as nat,
            pinned_columns: self.pinned_columns as nat,
            merges: self.merges@,
        }
    }
}

impl SheetLayoutView {
    /// Whether no more rows and columns are pinned than there are.
    pub open spec fn wf(self) -> bool {
        self.pinned_rows <= self.rows.count() && self.pinned_columns <= self.column_widths.len()
    }
}

/// The smaller of two numbers.
pub open spec fn smaller(left: nat, right: nat) -> nat {
    if left <= right {
        left
    } else {
        right
    }
}

/// The larger of two numbers.
pub open spec fn larger(left: nat, right: nat) -> nat {
    if left <= right {
        right
    } else {
        left
    }
}

/// A number less another, zero where that is less than nothing.
pub open spec fn less(number: nat, other: nat) -> nat {
    if number >= other {
        (number - other) as nat
    } else {
        0
    }
}

/// The rows to render around those in view, none of them pinned.
pub open spec fn row_window(first: nat, count: nat, top: nat, bottom: nat) -> (nat, nat) {
    (
        larger(less(top, ROW_RENDER_OVERSCAN as nat), first),
        smaller(bottom + 1 + ROW_RENDER_OVERSCAN as nat, count),
    )
}

/// The first of the columns that ends behind the scroll position.
pub open spec fn first_column_past(offsets: Seq<Pixels>, position: Pixels, from: int) -> int
    decreases offsets.len() - from,
{
    if 0 <= from < offsets.len() - 1 && !position.lt(offsets[from + 1]) {
        first_column_past(offsets, position, from + 1)
    } else {
        from
    }
}

/// The first of the columns that does not begin before the end of the viewport.
pub open spec fn first_column_beyond(offsets: Seq<Pixels>, end: Pixels, from: int) -> int
    decreases offsets.len() - from,
{
    if 0 <= from < offsets.len() - 1 && offsets[from].lt(end) {
        first_column_beyond(offsets, end, from + 1)
    } else {
        from
    }
}

/// The columns to render around those in view, none of them pinned. The offsets
/// are those of the columns that are not pinned, and where the last one ends.
pub open spec fn column_window(
    pinned: nat,
    count: nat,
    offsets: Seq<Pixels>,
    position: Pixels,
    end: Pixels,
) -> (nat, nat) {
    let first = first_column_past(offsets, position, 0);
    let beyond = first_column_beyond(offsets, end, first);
    (
        larger(less((pinned + first) as nat, COLUMN_RENDER_OVERSCAN as nat), pinned),
        smaller((pinned + beyond + COLUMN_RENDER_OVERSCAN) as nat, count),
    )
}

proof fn lemma_column_searches(offsets: Seq<Pixels>, bound: Pixels, from: int)
    requires
        0 <= from <= offsets.len() - 1,
    ensures
        from <= first_column_past(offsets, bound, from) <= offsets.len() - 1,
        from <= first_column_beyond(offsets, bound, from) <= offsets.len() - 1,
    decreases offsets.len() - from,
{
    if from < offsets.len() - 1 {
        lemma_column_searches(offsets, bound, from + 1);
    }
}

impl SheetLayout {
    /// Lays a sheet out: as many rows and columns are pinned as the sheet freezes
    /// and has.
    pub fn new(sheet: &SheetData, column_widths: Vec<Pixels>, rows: RowLayout) -> (layout:
        SheetLayout)
        requires
            column_widths@.len() == sheet@.col_count,
            rows@.count() == sheet@.row_count,
        ensures
            layout@ == (SheetLayoutView {
                column_widths: column_widths@,
                rows: rows@,
                pinned_rows: smaller(sheet@.freeze.rows as nat, sheet@.row_count),
                pinned_columns: smaller(sheet@.freeze.columns as nat, sheet@.col_count),
                merges: sheet@.merges,
            }),
            layout@.wf(),
    {
        let freeze = sheet.freeze();
        let pinned_rows: usize = if freeze.rows <= sheet.row_count() {
            freeze.rows
        } else {
            sheet.row_count()
        };
        let pinned_columns: usize = if freeze.columns <= sheet.col_count() {
            freeze.columns
        } else {
            sheet.col_count()
        };
        SheetLayout {
            column_widths,
            rows,
            pinned_rows,
            pinned_columns,
            merges: sheet.merges().clone(),
        }
    }

    /// The width of a column; the least width behind the last column.
    pub fn column_width(&self, col: usize) -> (width: Pixels)
        ensures
            width == if col < self@.column_widths.len() {
                self@.column_widths[col as int]
            } else {
                Pixels { bits: MIN_COLUMN_WIDTH_BITS }
            },
    {
        if col < self.column_widths.len() {
            self.column_widths[col]
        } else {
            Pixels { bits: MIN_COLUMN_WIDTH_BITS }
        }
    }

    /// The height of a row; the least height behind the last row.
    pub fn row_height(&self, row: usize) -> (height: Pixels)
        ensures
            height == self@.rows.height(row as int),
    {
        self.rows.row_height(row)
    }

    /// The widths of the columns from `start` up to `end`, as far as there are any.
    pub fn columns_between(&self, start: usize, end: usize) -> (widths: Vec<Pixels>)
        ensures
            widths@ == between(self@.column_widths, start as int, end as int),
    {
        let end: usize = if end <= self.column_widths.len() {
            end
        } else {
            self.column_widths.len()
        };
        let mut widths: Vec<Pixels> = Vec::new();
        let mut col: usize = if start <= end {
            start
        } else {
            end
        };
        let ghost first = col;
        while col < end
            invariant
                first <= col <= end <= self@.column_widths.len(),
                widths@ == self@.column_widths.subrange(first as int, col as int),
            decreases end - col,
        {
            widths.push(self.column_width(col));
            col += 1;
            assert(widths@ == self@.column_widths.subrange(first as int, col as int));
        }
        widths
    }

    /// The heights of the rows from `start` up to `end`, as far as there are any.
    pub fn rows_between(&self, start: usize, end: usize) -> (heights: Vec<Pixels>)
        ensures
            heights@ == between(self@.rows.heights(), start as int, end as int),
    {
        let count: usize = self.rows.row_count();
        let end: usize = if end <= count {
            end
        } else {
            count
        };
        let mut heights: Vec<Pixels> = Vec::new();
        let mut row: usize = if start <= end {
            start
        } else {
            end
        };
        let ghost first = row;
        while row < end
            invariant
                first <= row <= end <= self@.rows.count(),
                heights@ == self@.rows.heights().subrange(first as int, row as int),
            decreases end - row,
        {
            heights.push(self.row_height(row));
            row += 1;
            assert(heights@ == self@.rows.heights().subrange(first as int, row as int));
        }
        heights
    }

    /// Pins the first columns, all of them where more are asked for. Tells
    /// whether that changed anything.
    pub fn set_pinned_columns(&mut self, columns: usize) -> (changed: bool)
        ensures
            final(self)@ == (SheetLayoutView {
                pinned_columns: smaller(columns as nat, old(self)@.column_widths.len()),
                ..old(self)@
            }),
            changed == (final(self)@.pinned_columns != old(self)@.pinned_columns),
            old(self)@.wf() ==> final(self)@.wf(),
    {
        let columns: usize = if columns <= self.column_widths.len() {
            columns
        } else {
            self.column_widths.len()
        };
        if self.pinned_columns == columns {
            return false;
        }
        self.pinned_columns = columns;
        true
    }

    /// Pins the first rows, all of them where more are asked for. Tells whether
    /// that changed anything.
    pub fn set_pinned_rows(&mut self, rows: usize) -> (changed: bool)
        ensures
            final(self)@ == (SheetLayoutView {
                pinned_rows: smaller(rows as nat, old(self)@.rows.count()),
                ..old(self)@
            }),
            changed == (final(self)@.pinned_rows != old(self)@.pinned_rows),
            old(self)@.wf() ==> final(self)@.wf(),
    {
        let count: usize = self.rows.row_count();
        let rows: usize = if rows <= count {
            rows
        } else {
            count
        };
        if self.pinned_rows == rows {
            return false;
        }
        self.pinned_rows = rows;
        true
    }

    /// Changes the widths of columns, none below the least width; an update
    /// behind the last column is passed over.
    pub fn set_column_widths(&mut self, updates: &Vec<(usize, Pixels)>)
        ensures
            final(self)@ == (SheetLayoutView {
                column_widths: updated_widths(old(self)@.column_widths, updates@),
                ..old(self)@
            }),
            final(self)@.column_widths.len() == old(self)@.column_widths.len(),
    {
        let ghost start = self@;
        let mut index: usize = 0;
        assert(updates@.take(0) == Seq::<(usize, Pixels)>::empty());
        while index < updates.len()
            invariant
                index <= updates@.len(),
                self@ == (SheetLayoutView {
                    column_widths: updated_widths(start.column_widths, updates@.take(index as int)),
                    ..start
                }),
                self@.column_widths.len() == start.column_widths.len(),
            decreases updates@.len() - index,
        {
            proof {
                assert(updates@.take(index + 1).drop_last() == updates@.take(index as int));
                assert(updates@.take(index + 1).last() == updates@[index as int]);
            }
            let (col, width) = updates[index];
            if col < self.column_widths.len() {
                self.column_widths.set(col, width.max(Pixels { bits: MIN_COLUMN_WIDTH_BITS }));
            }
            index += 1;
        }
        assert(updates@.take(index as int) == updates@);
    }

    /// The rows to render: those between the first and the last row in view, and
    /// some more on each side, but no pinned ones.
    pub fn visible_scrollable_row_range(
        &self,
        viewport_height: Pixels,
        top_row: usize,
        bottom_row: usize,
    ) -> (range: (usize, usize))
        requires
            self@.wf(),
        ensures
            viewport_height.le(Pixels { bits: 0 }) || self@.pinned_rows >= self@.rows.count()
                ==> range.0 == self@.pinned_rows && range.1 == self@.pinned_rows,
            !viewport_height.le(Pixels { bits: 0 }) && self@.pinned_rows < self@.rows.count() ==> (
                range.0 as nat,
                range.1 as nat,
            ) == row_window(
                self@.pinned_rows,
                self@.rows.count(),
                top_row as nat,
                bottom_row as nat,
            ),
    {
        let first: usize = self.pinned_rows;
        let count: usize = self.rows.row_count();
        if viewport_height.is_at_most(Pixels { bits: 0 }) || first >= count {
            return (first, first);
        }
        let start: usize = if top_row >= ROW_RENDER_OVERSCAN && top_row - ROW_RENDER_OVERSCAN
            >= first {
            top_row - ROW_RENDER_OVERSCAN
        } else {
            first
        };
        let end: usize = if bottom_row >= count || count - bottom_row <= 1 + ROW_RENDER_OVERSCAN {
            count
        } else {
            bottom_row + 1 + ROW_RENDER_OVERSCAN
        };
        (start, end)
    }

    /// The columns to render: those that the viewport meets, and some more on
    /// each side, but no pinned ones. The offsets are those of the columns that
    /// are not pinned, and where the last one ends.
    pub fn visible_scrollable_column_range(
        &self,
        viewport_width: Pixels,
        offsets: &Vec<Pixels>,
        scroll_position: Pixels,
        viewport_end: Pixels,
    ) -> (range: (usize, usize))
        requires
            self@.wf(),
            offsets@.len() == self@.column_widths.len() - self@.pinned_columns + 1,
        ensures
            viewport_width.le(Pixels { bits: 0 }) || self@.pinned_columns
                >= self@.column_widths.len() ==> range.0 == self@.pinned_columns && range.1
                == self@.pinned_columns,
            !viewport_width.le(Pixels { bits: 0 }) && self@.pinned_columns < self@.column_widths.len() ==> (
                range.0 as nat,
                range.1 as nat,
            ) == column_window(
                self@.pinned_columns,
                self@.column_widths.len(),
                offsets@,
                scroll_position,
                viewport_end,
            ),
    {
        let pinned: usize = self.pinned_columns;
        let count: usize = self.column_widths.len();
        if viewport_width.is_at_most(Pixels { bits: 0 }) || pinned >= count {
            return (pinned, pinned);
        }
        let scrollable: usize = count - pinned;
        let mut first: usize = 0;
        while first < scrollable && !scroll_position.is_less(offsets[first + 1])
            invariant
                first <= scrollable,
                scrollable == offsets@.len() - 1,
                first_column_past(offsets@, scroll_position, 0) == first_column_past(
                    offsets@,
                    scroll_position,
                    first as int,
                ),
            decreases scrollable - first,
        {
            first += 1;
        }
        let mut beyond: usize = first;
        while beyond < scrollable && offsets[beyond].is_less(viewport_end)
            invariant
                first <= beyond <= scrollable,
                scrollable == offsets@.len() - 1,
                first_column_beyond(offsets@, viewport_end, first as int) == first_column_beyond(
                    offsets@,
                    viewport_end,
                    beyond as int,
                ),
            decreases scrollable - beyond,
        {
            beyond += 1;
        }
        let start: usize = if first > COLUMN_RENDER_OVERSCAN {
            pinned + first - COLUMN_RENDER_OVERSCAN
        } else {
            pinned
        };
        let end: usize = if scrollable - beyond <= COLUMN_RENDER_OVERSCAN {
            count
        } else {
            pinned + beyond + COLUMN_RENDER_OVERSCAN
        };
        (start, end)
    }
}

/// Column widths with updates applied one after the other; an update behind the
/// last column is passed over.
pub open spec fn updated_widths(widths: Seq<Pixels>, updates: Seq<(usize, Pixels)>) -> Seq<Pixels>
    decreases updates.len(),
{
    if updates.len() == 0 {
        widths
    } else {
        let earlier = updated_widths(widths, updates.drop_last());
        let (col, width) = updates.last();
        if col < earlier.len() {
            earlier.update(col as int, at_least_min_width(width))
        } else {
            earlier
        }
    }
}

/// The rows to render lie within the sheet, hold no pinned row, hold every row
/// in view that is not pinned, and are few more than those.
pub proof fn row_windows_hold_the_view(first: nat, count: nat, top: nat, bottom: nat, row: nat)
    requires
        bottom < count,
        first <= row,
        top <= row <= bottom,
    ensures
        ({
            let (start, end) = row_window(first, count, top, bottom);
            &&& first <= start <= row < end <= count
            &&& end - start <= bottom - top + 1 + 2 * ROW_RENDER_OVERSCAN
        }),
{
}

/// The columns to render lie within the sheet and hold no pinned column.
pub proof fn column_windows_stay_in_the_sheet(
    pinned: nat,
    count: nat,
    offsets: Seq<Pixels>,
    position: Pixels,
    end: Pixels,
)
    requires
        pinned < count,
        offsets.len() == count - pinned + 1,
    ensures
        ({
            let (start, stop) = column_window(pinned, count, offsets, position, end);
            pinned <= start <= stop <= count
        }),
{
    lemma_column_searches(offsets, position, 0);
    lemma_column_searches(offsets, end, first_column_past(offsets, position, 0));
}

proof fn lemma_first_column_past(offsets: Seq<Pixels>, position: Pixels, from: int)
    requires
        0 <= from <= offsets.len() - 1,
    ensures
        forall|col: int|
            from <= col < first_column_past(offsets, position, from) ==> !position.lt(
                #[trigger] offsets[col + 1],
            ),
    decreases offsets.len() - from,
{
    if from < offsets.len() - 1 && !position.lt(offsets[from + 1]) {
        lemma_first_column_past(offsets, position, from + 1);
    }
}

proof fn lemma_first_column_beyond(offsets: Seq<Pixels>, end: Pixels, from: int)
    requires
        0 <= from <= offsets.len() - 1,
        ascending(offsets),
    ensures
        forall|col: int|
            first_column_beyond(offsets, end, from) <= col < offsets.len() - 1
                ==> !(#[trigger] offsets[col]).lt(end),
    decreases offsets.len() - from,
{
    if from < offsets.len() - 1 && offsets[from].lt(end) {
        lemma_first_column_beyond(offsets, end, from + 1);
    } else {
        assert forall|col: int| from <= col < offsets.len() - 1 implies !(
        #[trigger] offsets[col]).lt(end) by {
            assert(offsets[from].le(offsets[col]));
        }
    }
}

/// Every column that the viewport meets is rendered: one that ends behind the
/// scroll position and begins before the end of the viewport.
pub proof fn columns_in_view_are_rendered(
    pinned: nat,
    count: nat,
    offsets: Seq<Pixels>,
    position: Pixels,
    end: Pixels,
    col: int,
)
    requires
        pinned < count,
        offsets.len() == count - pinned + 1,
        ascending(offsets),
        0 <= col < count - pinned,
        position.lt(offsets[col + 1]),
        offsets[col].lt(end),
    ensures
        ({
            let (start, stop) = column_window(pinned, count, offsets, position, end);
            start <= pinned + col < stop
        }),
{
    let first = first_column_past(offsets, position, 0);
    lemma_column_searches(offsets, position, 0);
    lemma_column_searches(offsets, end, first);
    lemma_first_column_past(offsets, position, 0);
    lemma_first_column_beyond(offsets, end, first);
    if col < first {
        assert(!position.lt(offsets[col + 1]));
    }
    let beyond = first_column_beyond(offsets, end, first);
    if col >= beyond {
        assert(!offsets[col].lt(end));
    }
}

/// How many rows or columns a position freezes: as many as have their middle
/// before it, none at or before the start.
pub open spec fn freeze_target(position: Pixels, middles: Seq<Pixels>) -> nat
    decreases middles.len(),
{
    if position.le(Pixels { bits: 0 }) || middles.len() == 0 || position.lt(middles[0]) {
        0
    } else {
        1 + freeze_target(position, middles.skip(1))
    }
}

/// How many rows or columns a position freezes, given where their middles are.
pub fn freeze_target_for_sizes(position: Pixels, middles: &Vec<Pixels>) -> (count: usize)
    ensures
        count == freeze_target(position, middles@),
        count <= middles@.len(),
{
    if position.is_at_most(Pixels { bits: 0 }) {
        return 0;
    }
    let mut count: usize = 0;
    assert(middles@.skip(0) == middles@);
    while count < middles.len() && !position.is_less(middles[count])
        invariant
            !position.le(Pixels { bits: 0 }),
            count <= middles@.len(),
            freeze_target(position, middles@) == count + freeze_target(
                position,
                middles@.skip(count as int),
            ),
        decreases middles@.len() - count,
    {
        assert(middles@.skip(count as int).skip(1) == middles@.skip(count + 1));
        count += 1;
    }
    count
}

/// Which scrollbars are shown.
#[derive(Debug, Clone, Copy, PartialEq, Eq, Structural)]
pub struct ScrollbarVisibility {
    pub horizontal: bool,
    pub vertical: bool,
}

/// Whether a scrollbar is needed, with the room that is there without and with
/// the other scrollbar.
#[derive(Debug, Clone, Copy, PartialEq, Eq, Structural)]
pub struct ScrollbarNeed {
    pub alone: bool,
    pub beside_other: bool,
}

/// Whether a scrollbar is needed: where the content takes more than the room.
pub fn scrollbar_need(content: Pixels, room: Pixels, room_beside_other: Pixels) -> (need:
    ScrollbarNeed)
    ensures
        need == (ScrollbarNeed {
            alone: room.lt(content),
            beside_other: room_beside_other.lt(content),
        }),
{
    ScrollbarNeed {
        alone: room.is_less(content),
        beside_other: room_beside_other.is_less(content),
    }
}

/// The scrollbars that are needed where some are shown.
pub open spec fn needed_beside(
    horizontal: ScrollbarNeed,
    vertical: ScrollbarNeed,
    shown: ScrollbarVisibility,
) -> ScrollbarVisibility {
    ScrollbarVisibility {
        horizontal: if shown.vertical {
            horizontal.beside_other
        } else {
            horizontal.alone
        },
        vertical: if shown.horizontal {
            vertical.beside_other
        } else {
            vertical.alone
        },
    }
}

/// The scrollbars that are shown: those that are needed alone, and those that
/// they make necessary, looked at twice.
pub open spec fn settled_scrollbars(
    horizontal: ScrollbarNeed,
    vertical: ScrollbarNeed,
) -> ScrollbarVisibility {
    let alone = ScrollbarVisibility { horizontal: horizontal.alone, vertical: vertical.alone };
    let once = needed_beside(horizontal, vertical, alone);
    if once == alone {
        alone
    } else {
        needed_beside(horizontal, vertical, once)
    }
}

/// Which scrollbars are shown.
pub fn scrollbar_visibility(horizontal: ScrollbarNeed, vertical: ScrollbarNeed) -> (visibility:
    ScrollbarVisibility)
    ensures
        visibility == settled_scrollbars(horizontal, vertical),
{
    let mut visibility = ScrollbarVisibility {
        horizontal: horizontal.alone,
        vertical: vertical.alone,
    };
    let mut round: usize = 0;
    while round < 2
        invariant
            round <= 2,
            round == 0 ==> visibility == (ScrollbarVisibility {
                horizontal: horizontal.alone,
                vertical: vertical.alone,
            }),
            round == 1 ==> visibility == needed_beside(
                horizontal,
                vertical,
                ScrollbarVisibility { horizontal: horizontal.alone, vertical: vertical.alone },
            ) && visibility != (ScrollbarVisibility {
                horizontal: horizontal.alone,
                vertical: vertical.alone,
            }),
            round == 2 ==> visibility == settled_scrollbars(horizontal, vertical),
        decreases 2 - round,
    {
        let next = ScrollbarVisibility {
            horizontal: if visibility.vertical {
                horizontal.beside_other
            } else {
                horizontal.alone
            },
            vertical: if visibility.horizontal {
                vertical.beside_other
            } else {
                vertical.alone
            },
        };
        if next == visibility {
            return visibility;
        }
        visibility = next;
        round += 1;
    }
    visibility
}

/// Where a scrollbar that is needed alone is also needed beside the other, the
/// scrollbars that are shown are those that are needed where they are shown.
pub proof fn shown_scrollbars_are_those_needed(horizontal: ScrollbarNeed, vertical: ScrollbarNeed)
    requires
        horizontal.alone ==> horizontal.beside_other,
        vertical.alone ==> vertical.beside_other,
    ensures
        needed_beside(horizontal, vertical, settled_scrollbars(horizontal, vertical))
            == settled_scrollbars(horizontal, vertical),
{
}

/// A cell of a row that is about to be rendered.
pub struct RowCell {
    pub data: CellData,
    /// The text that is displayed.
    pub text: String,
    pub text_width: Pixels,
    /// Whether the text is the formula in place of a value.
    pub formula_fallback: bool,
    pub merge: MergeKind,
}

/// The mathematical content of a [`RowCell`].
#[verifier::ext_equal]
pub struct RowCellView {
    pub data: CellView,
    pub text: Seq<char>,
    pub text_width: Pixels,
    pub formula_fallback: bool,
    pub merge: MergeKind,
}

impl View for RowCell {
    type V = RowCellView;

    open spec fn view(&self) -> RowCellView {
        RowCellView {
            data: self.data@,
            text: self.text@,
            text_width: self.text_width,
            formula_fallback: self.formula_fallback,
            merge: self.merge,
        }
    }
}

/// The content of a row of cells.
pub open spec fn row_cells_view(cells: Seq<RowCell>) -> Seq<RowCellView> {
    cells.map_values(|cell: RowCell| cell@)
}

/// Whether a cell's text wants more room than its column has.
pub open spec fn wants_room(cell: RowCellView, content_width: Pixels) -> bool {
    &&& cell.data.raw_value == CellRawValue::Text
    &&& !cell.formula_fallback
    &&& !cell.data.style.wrap_text
    &&& cell.text.len() > 0
    &&& cell.merge == MergeKind::Unmerged
    &&& !cell.text_width.le(content_width)
}

/// Whether text may spill over into a cell.
pub open spec fn gives_room(cell: RowCellView) -> bool {
    cell.text.len() == 0 && cell.merge == MergeKind::Unmerged
}

/// Where the run of cells that give room ends.
pub open spec fn room_end(cells: Seq<RowCellView>, from: int) -> int
    decreases cells.len() - from,
{
    if 0 <= from < cells.len() && gives_room(cells[from]) {
        room_end(cells, from + 1)
    } else {
        from
    }
}

/// The end of the cells that a cell's text spills over, where it does.
pub open spec fn spill_end(
    cells: Seq<RowCellView>,
    content_widths: Seq<Pixels>,
    col: int,
) -> Option<usize> {
    if wants_room(cells[col], content_widths[col]) && room_end(cells, col + 1) > col + 1 {
        Some(room_end(cells, col + 1) as usize)
    } else {
        None
    }
}

/// For each cell of a row where the cells end that its text spills over, where
/// it does. The content widths are those of the cells' columns less the padding.
pub fn overflow_ends(cells: &Vec<RowCell>, content_widths: &Vec<Pixels>) -> (ends: Vec<
    Option<usize>,
>)
    requires
        content_widths@.len() == cells@.len(),
    ensures
        ends@ == Seq::new(
            cells@.len(),
            |col: int| spill_end(row_cells_view(cells@), content_widths@, col),
        ),
{
    let ghost views = row_cells_view(cells@);
    let ghost expected = Seq::new(
        cells@.len(),
        |col: int| spill_end(views, content_widths@, col),
    );
    let mut ends: Vec<Option<usize>> = Vec::new();
    let mut col: usize = 0;
    while col < cells.len()
        invariant
            content_widths@.len() == cells@.len(),
            col <= cells@.len(),
            views == row_cells_view(cells@),
            expected == Seq::new(
                cells@.len(),
                |col: int| spill_end(views, content_widths@, col),
            ),
            ends@ == expected.take(col as int),
        decreases cells@.len() - col,
    {
        let cell = &cells[col];
        let is_text = match cell.data.raw_value {
            CellRawValue::Text => true,
            _ => false,
        };
        assert(views[col as int] == cell@);
        let mut end: usize = col + 1;
        if is_text && !cell.formula_fallback && !cell.data.style.wrap_text
            && !cell.text.as_str().is_empty() && cell.merge == MergeKind::Unmerged
            && !cell.text_width.is_at_most(content_widths[col]) {
            while end < cells.len() && cells[end].text.as_str().is_empty() && cells[end].merge
                == MergeKind::Unmerged
                invariant
                    col < end <= cells@.len(),
                    views == row_cells_view(cells@),
                    room_end(views, col + 1) == room_end(views, end as int),
                decreases cells@.len() - end,
            {
                assert(gives_room(views[end as int]));
                end += 1;
            }
            assert(end < cells@.len() ==> !gives_room(views[end as int]));
        }
        if end > col + 1 {
            ends.push(Some(end));
        } else {
            ends.push(None);
        }
        col += 1;
        assert(ends@ =~= expected.take(col as int));
    }
    assert(expected.take(col as int) == expected);
    ends
}

proof fn lemma_room(cells: Seq<RowCellView>, from: int)
    requires
        0 <= from <= cells.len(),
    ensures
        from <= room_end(cells, from) <= cells.len(),
        forall|col: int| from <= col < room_end(cells, from) ==> gives_room(#[trigger] cells[col]),
        room_end(cells, from) < cells.len() ==> !gives_room(cells[room_end(cells, from)]),
    decreases cells.len() - from,
{
    if from < cells.len() && gives_room(cells[from]) {
        lemma_room(cells, from + 1);
    }
}

/// Text spills only over cells that are empty and not merged, and over all of
/// them up to the next one that is not; never out of a cell whose text is not
/// plain text or has room enough.
pub proof fn text_spills_over_empty_cells_only(
    cells: Seq<RowCellView>,
    content_widths: Seq<Pixels>,
    col: int,
)
    requires
        0 <= col < cells.len() <= usize::MAX,
    ensures
        spill_end(cells, content_widths, col) matches Some(end) ==> {
            &&& wants_room(cells[col], content_widths[col])
            &&& col + 1 < end <= cells.len()
            &&& forall|other: int| col < other < end ==> gives_room(#[trigger] cells[other])
            &&& end < cells.len() ==> !gives_room(cells[end as int])
        },
        gives_room(cells[col]) ==> spill_end(cells, content_widths, col) is None,
{
    lemma_room(cells, col + 1);
}

/// Whether a merged region begins on a row, at a column that is pinned or between
/// two bounds.
pub open spec fn begins_in_view(
    region: CellRange,
    row: int,
    pinned_columns: nat,
    start_col: int,
    end_col: int,
) -> bool {
    region.start.row == row && (region.start.col < pinned_columns || start_col <= region.start.col
        < end_col)
}

/// The merged regions that begin on a row, as far as they are in view.
pub open spec fn regions_on_row(
    regions: Seq<CellRange>,
    row: int,
    pinned_columns: nat,
    start_col: int,
    end_col: int,
) -> Seq<CellRange>
    decreases regions.len(),
{
    if regions.len() == 0 {
        Seq::empty()
    } else {
        let before = regions_on_row(regions.drop_last(), row, pinned_columns, start_col, end_col);
        if begins_in_view(regions.last(), row, pinned_columns, start_col, end_col) {
            before.push(regions.last())
        } else {
            before
        }
    }
}

impl SheetLayout {
    /// The merged regions that are painted over a row: those that begin there, at
    /// a pinned column or at one of those between two bounds.
    pub fn regions_to_paint(&self, row: usize, start_col: usize, end_col: usize) -> (painted: Vec<
        CellRange,
    >)
        ensures
            painted@ == regions_on_row(
                self@.merges,
                row as int,
                self@.pinned_columns,
                start_col as int,
                end_col as int,
            ),
    {
        let regions = self.merges.regions();
        let mut painted: Vec<CellRange> = Vec::new();
        let mut index: usize = 0;
        assert(regions@.take(0) =~= Seq::<CellRange>::empty());
        while index < regions.len()
            invariant
                index <= regions@.len(),
                regions@ == self@.merges,
                painted@ == regions_on_row(
                    regions@.take(index as int),
                    row as int,
                    self@.pinned_columns,
                    start_col as int,
                    end_col as int,
                ),
            decreases regions@.len() - index,
        {
            assert(regions@.take(index + 1).drop_last() =~= regions@.take(index as int));
            let region: CellRange = regions[index];
            if region.start.row == row && (region.start.col < self.pinned_columns || (start_col
                <= region.start.col && region.start.col < end_col)) {
                painted.push(region);
            }
            index += 1;
        }
        assert(regions@.take(index as int) =~= regions@);
        painted
    }
}

/// How long the sheet stays as it is while the scrollbar is dragged, in
/// milliseconds: longer where rows have to be read first.
pub fn vertical_scroll_drag_update_interval(is_fully_loaded: bool) -> (millis: u64)
    ensures
        millis == (if is_fully_loaded {
            50u64
        } else {
            200u64
        }),
{
    if is_fully_loaded {
        50
    } else {
        200
    }
}

/// The last update of a row counts, where the row exists; no other row is touched by it,
/// and without updates nothing is.
pub proof fn the_last_row_update_counts(
    sizes: Seq<Pixels>,
    updates: Seq<(usize, Pixels)>,
    line: usize,
    size: Pixels,
    other: int,
)
    requires
        0 <= other < sizes.len(),
    ensures
        ({
            let (before, after) = (updated_heights(sizes, updates), updated_heights(
                sizes,
                updates.push((line, size)),
            ));
            &&& after.len() == sizes.len()
            &&& line < sizes.len() && !size.is_nan() && !size.lt((Pixels { bits: MIN_ROW_HEIGHT_BITS }))
                ==> after[line as int] == size
            &&& line < sizes.len() && (size.is_nan() || size.lt((Pixels { bits: MIN_ROW_HEIGHT_BITS })))
                ==> after[line as int] == (Pixels { bits: MIN_ROW_HEIGHT_BITS })
            &&& other != line ==> after[other] == before[other]
            &&& line >= sizes.len() ==> after == before
            &&& updated_heights(sizes, Seq::empty()) == sizes
        }),
{
    lemma_updated_len(sizes, updates);
    assert(updates.push((line, size)).drop_last() =~= updates);
    assert(updates.push((line, size)).last() == (line, size));
}

proof fn lemma_updated_widths_len(sizes: Seq<Pixels>, updates: Seq<(usize, Pixels)>)
    ensures
        updated_widths(sizes, updates).len() == sizes.len(),
    decreases updates.len(),
{
    if updates.len() > 0 {
        lemma_updated_widths_len(sizes, updates.drop_last());
    }
}

/// The last update of a column counts, where the column exists; no other column is touched by it,
/// and without updates nothing is.
pub proof fn the_last_column_update_counts(
    sizes: Seq<Pixels>,
    updates: Seq<(usize, Pixels)>,
    line: usize,
    size: Pixels,
    other: int,
)
    requires
        0 <= other < sizes.len(),
    ensures
        ({
            let (before, after) = (updated_widths(sizes, updates), updated_widths(
                sizes,
                updates.push((line, size)),
            ));
            &&& after.len() == sizes.len()
            &&& line < sizes.len() && !size.is_nan() && !size.lt((Pixels { bits: MIN_COLUMN_WIDTH_BITS }))
                ==> after[line as int] == size
            &&& line < sizes.len() && (size.is_nan() || size.lt((Pixels { bits: MIN_COLUMN_WIDTH_BITS })))
                ==> after[line as int] == (Pixels { bits: MIN_COLUMN_WIDTH_BITS })
            &&& other != line ==> after[other] == before[other]
            &&& line >= sizes.len() ==> after == before
            &&& updated_widths(sizes, Seq::empty()) == sizes
        }),
{
    lemma_updated_widths_len(sizes, updates);
    assert(updates.push((line, size)).drop_last() =~= updates);
    assert(updates.push((line, size)).last() == (line, size));
}

/// As many lines are frozen as have their middle at or before the position, counted from the
/// first one; none where the position is at the start.
pub proof fn lines_freeze_up_to_their_middle(position: Pixels, middles: Seq<Pixels>)
    ensures
        freeze_target(position, middles) <= middles.len(),
        position.le((Pixels { bits: 0 })) ==> freeze_target(position, middles) == 0,
        forall|line: int|
            0 <= line < freeze_target(position, middles) ==> !position.lt(#[trigger] middles[line]),
        !position.le((Pixels { bits: 0 })) && freeze_target(position, middles) < middles.len()
            ==> position.lt(middles[freeze_target(position, middles) as int]),
    decreases middles.len(),
{
    if !(position.le((Pixels { bits: 0 })) || middles.len() == 0 || position.lt(middles[0])) {
        let rest = middles.skip(1);
        lines_freeze_up_to_their_middle(position, rest);
        assert forall|line: int| 0 <= line < freeze_target(position, middles) implies !position.lt(
            #[trigger] middles[line],
        ) by {
            if line > 0 {
                assert(rest[line - 1] == middles[line]);
            }
        }
    }
}

/// The columns to render are those from the first that ends behind the position up to the first
/// that begins at or behind the end, and few more on either side.
pub proof fn few_columns_are_rendered_out_of_view(
    pinned: nat,
    count: nat,
    offsets: Seq<Pixels>,
    position: Pixels,
    end: Pixels,
    col: int,
)
    requires
        pinned < count,
        offsets.len() == count - pinned + 1,
        0 <= col < count - pinned,
    ensures
        ({
            let (start, stop) = column_window(pinned, count, offsets, position, end);
            &&& start <= pinned + col && col + COLUMN_RENDER_OVERSCAN < first_column_past(
                offsets,
                position,
                0,
            ) ==> start == pinned
            &&& pinned + col < stop && col >= COLUMN_RENDER_OVERSCAN ==> col
                - COLUMN_RENDER_OVERSCAN < first_column_beyond(
                offsets,
                end,
                first_column_past(offsets, position, 0),
            )
            &&& first_column_past(offsets, position, 0) < count - pinned ==> position.lt(
                offsets[first_column_past(offsets, position, 0) + 1],
            )
        }),
{
    lemma_column_searches(offsets, position, 0);
    lemma_column_searches(offsets, end, first_column_past(offsets, position, 0));
    lemma_column_past_stops(offsets, position, 0);
}

proof fn lemma_column_past_stops(offsets: Seq<Pixels>, position: Pixels, from: int)
    requires
        0 <= from <= offsets.len() - 1,
    ensures
        first_column_past(offsets, position, from) < offsets.len() - 1 ==> position.lt(
            offsets[first_column_past(offsets, position, from) + 1],
        ),
    decreases offsets.len() - from,
{
    if from < offsets.len() - 1 && !position.lt(offsets[from + 1]) {
        lemma_column_past_stops(offsets, position, from + 1);
    }
}

/// Text spills exactly where it is plain text on one line that is wider than its cell, neither
/// cell is merged, and the next cell shows nothing.
pub proof fn wide_texts_spill_into_empty_cells(
    cells: Seq<RowCellView>,
    content_widths: Seq<Pixels>,
    col: int,
)
    requires
        0 <= col < cells.len() <= usize::MAX,
    ensures
        spill_end(cells, content_widths, col) is Some <==> {
            let cell = cells[col];
            &&& cell.data.raw_value is Text
            &&& !cell.formula_fallback && !cell.data.style.wrap_text
            &&& cell.text != Seq::<char>::empty()
            &&& cell.merge == MergeKind::Unmerged
            &&& content_widths[col].lt(cell.text_width) || cell.text_width.is_nan()
                || content_widths[col].is_nan()
            &&& col + 1 < cells.len()
            &&& cells[col + 1].text == Seq::<char>::empty()
            &&& cells[col + 1].merge == MergeKind::Unmerged
        },
{
    lemma_room(cells, col + 1);
    if cells[col].text.len() == 0 {
        assert(cells[col].text =~= Seq::<char>::empty());
    }
    if col + 1 < cells.len() && cells[col + 1].text.len() == 0 {
        assert(cells[col + 1].text =~= Seq::<char>::empty());
    }
}

/// The regions that begin on a row in view are those of the sheet that do, in their order.
pub proof fn regions_in_view_keep_their_order(
    regions: Seq<CellRange>,
    row: int,
    pinned_columns: nat,
    start_col: int,
    end_col: int,
)
    ensures
        regions_on_row(regions, row, pinned_columns, start_col, end_col) == regions.filter(
            |region: CellRange|
                region.start.row == row && (region.start.col < pinned_columns || start_col
                    <= region.start.col < end_col),
        ),
    decreases regions.len(),
{
    reveal(Seq::filter);
    if regions.len() > 0 {
        regions_in_view_keep_their_order(
            regions.drop_last(),
            row,
            pinned_columns,
            start_col,
            end_col,
        );
    }
}

/// The sizes from a line up to another one are those of the lines between them, the first one
/// counted and the last one not, as far as there are lines.
pub proof fn sizes_between_lines_are_theirs(sizes: Seq<Pixels>, start: int, end: int, index: int)
    requires
        0 <= start <= end,
        0 <= index,
    ensures
        end <= sizes.len() ==> between(sizes, start, end).len() == end - start,
        start >= sizes.len() ==> between(sizes, start, end).len() == 0,
        start <= sizes.len() < end ==> between(sizes, start, end).len() == sizes.len() - start,
        start + index < end && start + index < sizes.len() ==> between(sizes, start, end)[index]
            == sizes[start + index],
{
}

/// A row begins behind all rows before it, and a row that the sheet does not have is as tall as
/// the smallest one. Rows of one height are counted; where each has its own, the offsets say
/// where they begin.
pub proof fn rows_begin_behind_those_before(rows: RowLayoutView, row: int)
    requires
        rows.placed(),
        0 <= row < rows.count() <= usize::MAX,
    ensures
        match rows {
            RowLayoutView::Uniform { row_count, height } => rows.start(row) == (Distance::Rows {
                count: row as usize,
                height,
            }) && rows.end() == (Distance::Rows { count: row_count as usize, height })
                && rows.height(row) == height,
            RowLayoutView::Explicit { row_heights, row_offsets } => rows.start(row)
                == Distance::Offset(row_offsets[row]) && rows.end() == Distance::Offset(
                row_offsets[row_heights.len() as int],
            ) && rows.height(row) == row_heights[row],
        },
        rows.height(rows.count() as int) == (Pixels { bits: MIN_ROW_HEIGHT_BITS }),
        rows.heights().len() == rows.count(),
        rows.heights()[row] == rows.height(row),
{
}

/// The rows after the heights of some were changed.
pub open spec fn rows_after(
    rows: RowLayoutView,
    updates: Seq<(usize, Pixels)>,
    all_same: bool,
) -> RowLayoutView {
    match rows {
        RowLayoutView::Uniform { row_count, height } => if updates.len() == 0 {
            rows
        } else if updates.len() == row_count && all_same {
            RowLayoutView::Uniform { row_count, height: at_least_min_height(updates[0].1) }
        } else {
            RowLayoutView::Explicit {
                row_heights: clamped(updated_heights(rows.heights(), updates)),
                row_offsets: Seq::empty(),
            }
        },
        RowLayoutView::Explicit { row_heights, row_offsets } => RowLayoutView::Explicit {
            row_heights: updated_heights(row_heights, updates),
            row_offsets,
        },
    }
}

proof fn lemma_updated_at(heights: Seq<Pixels>, updates: Seq<(usize, Pixels)>, row: int, last: int)
    requires
        0 <= row < heights.len(),
        -1 <= last < updates.len(),
        last >= 0 ==> updates[last].0 == row,
        forall|i: int| last < i < updates.len() ==> (#[trigger] updates[i]).0 != row,
    ensures
        updated_heights(heights, updates).len() == heights.len(),
        updated_heights(heights, updates)[row] == if last >= 0 {
            at_least_min_height(updates[last].1)
        } else {
            heights[row]
        },
    decreases updates.len(),
{
    lemma_updated_len(heights, updates);
    if updates.len() > 0 {
        let fewer = updates.drop_last();
        lemma_updated_len(heights, fewer);
        assert(updates.last() == updates[updates.len() - 1]);
        if last < updates.len() - 1 {
            assert forall|i: int| last < i < fewer.len() implies (#[trigger] fewer[i]).0 != row by {
                assert(fewer[i] == updates[i]);
            }
            if last >= 0 {
                assert(fewer[last] == updates[last]);
            }
            lemma_updated_at(heights, fewer, row, last);
            assert(updates.last().0 != row);
        }
    }
}

/// A row that is resized gets the height of its last update, but never less than the least one;
/// other rows keep theirs. Where all rows of one height get another, they stay of one height.
pub proof fn resized_rows_get_their_heights(
    rows: RowLayoutView,
    updates: Seq<(usize, Pixels)>,
    all_same: bool,
    row: int,
    last: int,
)
    requires
        0 <= row < rows.count(),
        -1 <= last < updates.len(),
        last >= 0 ==> updates[last].0 == row,
        forall|i: int| last < i < updates.len() ==> (#[trigger] updates[i]).0 != row,
        all_same ==> forall|i: int|
            0 <= i < updates.len() ==> (#[trigger] updates[i]).1 == updates[0].1,
        rows matches RowLayoutView::Uniform { row_count, height } ==> !height.lt(
            (Pixels { bits: MIN_ROW_HEIGHT_BITS }),
        ) && !height.is_nan(),
        all_same && updates.len() == rows.count() ==> last >= 0,
    ensures
        rows_after(rows, updates, all_same).count() == rows.count(),
        last >= 0 ==> rows_after(rows, updates, all_same).height(row) == at_least_min_height(
            updates[last].1,
        ),
        last < 0 ==> rows_after(rows, updates, all_same).height(row) == rows.height(row),
{
    match rows {
        RowLayoutView::Uniform { row_count, height } => {
            lemma_updated_at(rows.heights(), updates, row, last);
            if last >= 0 {
                let size = at_least_min_height(updates[last].1);
                assert(at_least_min_height(size) == size);
            }
            assert(rows.heights()[row] == height);
        },
        RowLayoutView::Explicit { row_heights, row_offsets } => {
            lemma_updated_at(row_heights, updates, row, last);
        },
    }
}

/// A height that is changed is never below the least one, and is left alone where it is not.
pub proof fn heights_have_a_least_one(size: Pixels)
    ensures
        !at_least_min_height(size).lt((Pixels { bits: MIN_ROW_HEIGHT_BITS })),
        !at_least_min_height(size).is_nan(),
        !size.is_nan() && !size.lt((Pixels { bits: MIN_ROW_HEIGHT_BITS })) ==> at_least_min_height(
            size,
        ) == size,
        !at_least_min_width(size).lt((Pixels { bits: MIN_COLUMN_WIDTH_BITS })),
        !at_least_min_width(size).is_nan(),
        !size.is_nan() && !size.lt((Pixels { bits: MIN_COLUMN_WIDTH_BITS }))
            ==> at_least_min_width(size) == size,
{
}

/// No more lines are pinned than there are, and as many as were asked for where they exist.
pub proof fn pinned_lines_exist(asked: nat, count: nat)
    ensures
        smaller(asked, count) <= count,
        asked <= count ==> smaller(asked, count) == asked,
        asked >= count ==> smaller(asked, count) == count,
        larger(asked, count) >= asked && larger(asked, count) >= count,
        larger(asked, count) == asked || larger(asked, count) == count,
        less(asked, count) + count >= asked,
        asked >= count ==> less(asked, count) + count == asked,
        asked < count ==> less(asked, count) == 0,
{
}

} // verus!
