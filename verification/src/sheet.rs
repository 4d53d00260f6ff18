//! Sheets: a grid of cells with sizes, frozen panes and merged cells.

use vstd::prelude::*;

use crate::cell::{
    cell_rows_view, cells_view, empty_cell, text_view, CellData, CellRawValue, CellView,
};
use crate::lines::{row_line_count, tallest};
use crate::merges::{SheetFreeze, SheetMerges};
use crate::pixels::Pixels;
use crate::range::CellRange;

verus! {

/// A sheet of a workbook.
///
/// The rows in memory are those from `first_row` on; a sheet that is read row by
/// row holds a part of them at a time.
pub struct SheetData {
    pub name: String,
    pub first_row: usize,
    pub rows: Vec<Vec<CellData>>,
    pub row_count: usize,
    pub col_count: usize,
    pub column_widths: Vec<Pixels>,
    pub row_heights: Vec<Pixels>,
    pub default_column_width: Pixels,
    pub default_row_height: Pixels,
    pub fully_loaded: bool,
    pub freeze: SheetFreeze,
    pub merges: SheetMerges,
}

/// The mathematical content of a [`SheetData`].
#[verifier::ext_equal]
pub struct SheetView {
    pub name: Seq<char>,
    pub first_row: nat,
    pub rows: Seq<Seq<CellView>>,
    pub row_count: nat,
    pub col_count: nat,
    pub column_widths: Seq<Pixels>,
    pub row_heights: Seq<Pixels>,
    pub default_column_width: Pixels,
    pub default_row_height: Pixels,
    pub fully_loaded: bool,
    pub freeze: SheetFreeze,
    pub merges: Seq<CellRange>,
}

impl View for SheetData {
    type V = SheetView;

    open spec fn view(&self) -> SheetView {
        SheetView {
            name: self.name@,
            first_row: self.first_row as nat,
            rows: cell_rows_view(self.rows@),
            row_count: self.row_count as nat,
            col_count: self.col_count as nat,
            column_widths: self.column_widths@,
            row_heights: self.row_heights@,
            default_column_width: self.default_column_width,
            default_row_height: self.default_row_height,
            fully_loaded: self.fully_loaded,
            freeze: self.freeze,
            merges: self.merges@,
        }
    }
}

/// The extent in a list of extents, where it is there and greater than zero.
pub open spec fn size_or(sizes: Seq<Pixels>, index: int, other: Pixels) -> Pixels {
    if index < sizes.len() && sizes[index].positive() {
        sizes[index]
    } else {
        other
    }
}

impl SheetView {
    /// The cell at a position; positions that hold nothing are empty.
    pub open spec fn cell(self, row: int, col: int) -> CellView {
        if self.first_row <= row < self.first_row + self.rows.len() && col < self.rows[row
            - self.first_row].len() {
            self.rows[row - self.first_row][col]
        } else {
            empty_cell()
        }
    }

    /// The width of a column.
    pub open spec fn column_width(self, col: int) -> Pixels {
        size_or(self.column_widths, col, self.default_column_width)
    }

    /// The height of a row.
    pub open spec fn row_height(self, row: int) -> Pixels {
        size_or(self.row_heights, row, self.default_row_height)
    }

    /// The number at a position, by its bit pattern, where there is one.
    pub open spec fn number(self, row: int, col: int) -> Option<u64> {
        match self.cell(row, col).raw_value {
            CellRawValue::Number { bits } => Some(bits),
            _ => None,
        }
    }

    /// Whether a cell of the sheet has a formula but displays nothing.
    pub open spec fn lacks_formula_values(self) -> bool {
        exists|row: int, col: int|
            0 <= row < self.row_count && 0 <= col < self.col_count && (#[trigger] self.cell(
                row,
                col,
            )).lacks_formula_value()
    }
}

/// How the rows of a sheet are laid out.
pub enum SheetRowLayout {
    /// All rows have the same height.
    Uniform { row_count: usize, height: Pixels },
    /// Every row has a height of its own.
    Explicit { heights: Vec<Pixels> },
}

/// The mathematical content of a [`SheetRowLayout`].
#[verifier::ext_equal]
pub enum SheetRowLayoutView {
    Uniform { row_count: nat, height: Pixels },
    Explicit { heights: Seq<Pixels> },
}

impl View for SheetRowLayout {
    type V = SheetRowLayoutView;

    open spec fn view(&self) -> SheetRowLayoutView {
        match self {
            SheetRowLayout::Uniform { row_count, height } => SheetRowLayoutView::Uniform {
                row_count: *row_count as nat,
                height: *height,
            },
            SheetRowLayout::Explicit { heights } => SheetRowLayoutView::Explicit {
                heights: heights@,
            },
        }
    }
}

/// The name of a sheet that has none of its own.
pub open spec fn sheet_name_or_default(name: Option<Seq<char>>) -> Seq<char> {
    match name {
        Some(name) => name,
        None => "Sheet1"@,
    }
}

/// The length of the longest row.
pub open spec fn widest<T>(rows: Seq<Seq<T>>) -> nat
    decreases rows.len(),
{
    if rows.len() == 0 {
        0
    } else {
        let earlier = widest(rows.drop_last());
        if rows.last().len() > earlier {
            rows.last().len()
        } else {
            earlier
        }
    }
}

/// No row is longer than the longest.
pub proof fn lemma_widest<T>(rows: Seq<Seq<T>>, row: int)
    requires
        0 <= row < rows.len(),
    ensures
        rows[row].len() <= widest(rows),
    decreases rows.len(),
{
    if row < rows.len() - 1 {
        lemma_widest(rows.drop_last(), row);
        assert(rows.drop_last()[row] == rows[row]);
    }
}

/// The length of the longest row of cells.
pub fn widest_row(rows: &Vec<Vec<CellData>>) -> (width: usize)
    ensures
        width == widest(cell_rows_view(rows@)),
{
    let ghost views = cell_rows_view(rows@);
    let mut width: usize = 0;
    let mut index: usize = 0;
    while index < rows.len()
        invariant
            index <= rows@.len(),
            views == cell_rows_view(rows@),
            width == widest(views.take(index as int)),
        decreases rows@.len() - index,
    {
        assert(views.take(index + 1).drop_last() == views.take(index as int));
        if rows[index].len() > width {
            width = rows[index].len();
        }
        index += 1;
    }
    assert(views.take(index as int) == views);
    width
}

/// The extents of the first `count` columns, given the explicit ones.
pub fn effective_widths(widths: &Vec<Pixels>, default_width: Pixels, count: usize) -> (effective:
    Vec<Pixels>)
    ensures
        effective@ == Seq::new(count as nat, |col: int| size_or(widths@, col, default_width)),
{
    let mut effective: Vec<Pixels> = Vec::new();
    let mut col: usize = 0;
    while col < count
        invariant
            col <= count,
            effective@ == Seq::new(col as nat, |col: int| size_or(widths@, col, default_width)),
        decreases count - col,
    {
        if col < widths.len() && widths[col].is_positive() {
            effective.push(widths[col]);
        } else {
            effective.push(default_width);
        }
        col += 1;
        assert(effective@ =~= Seq::new(col as nat, |col: int| size_or(widths@, col, default_width)));
    }
    effective
}

/// How many lines the cells of each row take, given how many characters fit in a
/// line of each column.
pub fn row_line_counts(rows: &Vec<Vec<CellData>>, capacities: &Vec<usize>) -> (counts: Vec<usize>)
    requires
        widest(cell_rows_view(rows@)) <= capacities@.len(),
        forall|i: int| 0 <= i < capacities@.len() ==> #[trigger] capacities@[i] > 0,
    ensures
        counts@.len() == rows@.len(),
        forall|row: int|
            0 <= row < rows@.len() ==> #[trigger] counts@[row] == tallest(
                cells_view(rows@[row]@),
                capacities@,
            ),
{
    let mut counts: Vec<usize> = Vec::new();
    let mut row: usize = 0;
    while row < rows.len()
        invariant
            row <= rows@.len(),
            counts@.len() == row,
            widest(cell_rows_view(rows@)) <= capacities@.len(),
            forall|i: int| 0 <= i < capacities@.len() ==> #[trigger] capacities@[i] > 0,
            forall|r: int|
                0 <= r < row ==> #[trigger] counts@[r] == tallest(
                    cells_view(rows@[r]@),
                    capacities@,
                ),
        decreases rows@.len() - row,
    {
        proof {
            lemma_widest(cell_rows_view(rows@), row as int);
            assert(cell_rows_view(rows@)[row as int] == cells_view(rows@[row as int]@));
        }
        counts.push(row_line_count(&rows[row], capacities));
        row += 1;
    }
    counts
}

/// The heights of all rows: the given ones where they are greater than zero, and
/// else those that the rows' contents ask for.
pub open spec fn displayed_heights(heights: Seq<Pixels>, automatic: Seq<Pixels>) -> Seq<Pixels> {
    Seq::new(
        automatic.len(),
        |row: int|
            if row < heights.len() && !heights[row].le(Pixels { bits: 0 }) {
                heights[row]
            } else {
                automatic[row]
            },
    )
}

/// Fills the heights of rows in that have none of their own.
pub fn display_row_heights(row_heights: &Vec<Pixels>, automatic: &Vec<Pixels>) -> (heights: Vec<
    Pixels,
>)
    ensures
        heights@ == displayed_heights(row_heights@, automatic@),
{
    let ghost expected = displayed_heights(row_heights@, automatic@);
    let mut heights: Vec<Pixels> = Vec::new();
    let mut row: usize = 0;
    while row < automatic.len()
        invariant
            row <= automatic@.len(),
            expected == displayed_heights(row_heights@, automatic@),
            heights@ == expected.take(row as int),
        decreases automatic@.len() - row,
    {
        if row < row_heights.len() && !row_heights[row].is_at_most(Pixels { bits: 0 }) {
            heights.push(row_heights[row]);
        } else {
            heights.push(automatic[row]);
        }
        row += 1;
        assert(heights@ =~= expected.take(row as int));
    }
    assert(expected.take(row as int) == expected);
    heights
}

impl SheetData {
    /// A sheet that is in memory as a whole, each row as tall as it says or as
    /// its contents ask for.
    pub fn new(
        sheet_name: Option<String>,
        rows: Vec<Vec<CellData>>,
        column_widths: Vec<Pixels>,
        row_heights: &Vec<Pixels>,
        default_column_width: Pixels,
        default_row_height: Pixels,
        automatic_heights: &Vec<Pixels>,
    ) -> (sheet: SheetData)
        requires
            automatic_heights@.len() == rows@.len(),
        ensures
            sheet@ == (SheetView {
                name: sheet_name_or_default(text_view(sheet_name)),
                first_row: 0,
                rows: cell_rows_view(rows@),
                row_count: rows@.len(),
                col_count: widest(cell_rows_view(rows@)),
                column_widths: column_widths@,
                row_heights: displayed_heights(row_heights@, automatic_heights@),
                default_column_width,
                default_row_height,
                fully_loaded: true,
                freeze: (SheetFreeze { rows: 0, columns: 0 }),
                merges: Seq::empty(),
            }),
            sheet@ == whole_sheet(
                text_view(sheet_name),
                cell_rows_view(rows@),
                column_widths@,
                displayed_heights(row_heights@, automatic_heights@),
                default_column_width,
                default_row_height,
            ),
    {
        let name = match sheet_name {
            Some(name) => name,
            None => "Sheet1".to_owned(),
        };
        let row_count: usize = rows.len();
        let col_count: usize = widest_row(&rows);
        let row_heights = display_row_heights(row_heights, automatic_heights);
        SheetData {
            name,
            first_row: 0,
            rows,
            row_count,
            col_count,
            column_widths,
            row_heights,
            default_column_width,
            default_row_height,
            fully_loaded: true,
            freeze: SheetFreeze::default(),
            merges: SheetMerges::default(),
        }
    }

    /// A sheet that is read row by row, before any row is read. All its rows and
    /// all its columns have the default extent.
    pub fn from_source(
        sheet_name: Option<String>,
        row_count: usize,
        col_count: usize,
        default_column_width: Pixels,
        default_row_height: Pixels,
        freeze: SheetFreeze,
    ) -> (sheet: SheetData)
        ensures
            sheet@ == (SheetView {
                name: sheet_name_or_default(text_view(sheet_name)),
                first_row: 0,
                rows: Seq::empty(),
                row_count: row_count as nat,
                col_count: col_count as nat,
                column_widths: Seq::empty(),
                row_heights: Seq::empty(),
                default_column_width,
                default_row_height,
                fully_loaded: false,
                freeze,
                merges: Seq::empty(),
            }),
    {
        let name = match sheet_name {
            Some(name) => name,
            None => "Sheet1".to_owned(),
        };
        let rows: Vec<Vec<CellData>> = Vec::new();
        assert(cell_rows_view(rows@) =~= Seq::<Seq<CellView>>::empty());
        SheetData {
            name,
            first_row: 0,
            rows,
            row_count,
            col_count,
            column_widths: Vec::new(),
            row_heights: Vec::new(),
            default_column_width,
            default_row_height,
            fully_loaded: false,
            freeze,
            merges: SheetMerges::default(),
        }
    }

    /// Holds the rows from `first_row` on in memory, in place of those before.
    pub fn show_rows(&mut self, first_row: usize, rows: Vec<Vec<CellData>>)
        ensures
            final(self)@ == (SheetView {
                first_row: first_row as nat,
                rows: cell_rows_view(rows@),
                ..old(self)@
            }),
            final(self)@ == old(self)@.showing(first_row as nat, cell_rows_view(rows@)),
    {
        self.first_row = first_row;
        self.rows = rows;
    }

    /// The same sheet with frozen panes.
    pub fn with_freeze(self, freeze: SheetFreeze) -> (sheet: SheetData)
        ensures
            sheet@ == (SheetView { freeze, ..self@ }),
    {
        let mut sheet = self;
        sheet.freeze = freeze;
        sheet
    }

    /// The same sheet with merged cells.
    pub fn with_merges(self, merges: SheetMerges) -> (sheet: SheetData)
        ensures
            sheet@ == (SheetView { merges: merges@, ..self@ }),
    {
        let mut sheet = self;
        sheet.merges = merges;
        sheet
    }

    /// The sheet's name.
    pub fn name(&self) -> (name: &str)
        ensures
            name@ == self@.name,
    {
        self.name.as_str()
    }

    /// How many rows the sheet has.
    pub fn row_count(&self) -> (count: usize)
        ensures
            count == self@.row_count,
    {
        self.row_count
    }

    /// How many columns the sheet has.
    pub fn col_count(&self) -> (count: usize)
        ensures
            count == self@.col_count,
    {
        self.col_count
    }

    /// Whether all rows are in memory.
    pub fn is_fully_loaded(&self) -> (loaded: bool)
        ensures
            loaded == self@.fully_loaded,
    {
        self.fully_loaded
    }

    /// Whether operations on whole ranges are offered; they are for every sheet.
    pub fn supports_full_range_operations(&self) -> (supports: bool)
        ensures
            supports,
    {
        true
    }

    /// The rows and columns that stay in view.
    pub fn freeze(&self) -> (freeze: SheetFreeze)
        ensures
            freeze == self@.freeze,
    {
        self.freeze
    }

    /// The merged regions.
    pub fn merges(&self) -> (merges: &SheetMerges)
        ensures
            merges@ == self@.merges,
    {
        &self.merges
    }

    /// The cell at a position, where the sheet holds one.
    pub fn cell_ref(&self, row: usize, col: usize) -> (cell: Option<&CellData>)
        ensures
            match cell {
                Some(cell) => cell@ == self@.cell(row as int, col as int),
                None => self@.cell(row as int, col as int) == empty_cell(),
            },
    {
        if row < self.first_row || row - self.first_row >= self.rows.len() {
            return None;
        }
        let index: usize = row - self.first_row;
        assert(self@.rows[index as int] == cells_view(self.rows@[index as int]@));
        if col >= self.rows[index].len() {
            return None;
        }
        Some(&self.rows[index][col])
    }

    /// The cell at a position; positions that hold nothing are empty.
    pub fn cell_data(&self, row: usize, col: usize) -> (cell: CellData)
        ensures
            cell@ == self@.cell(row as int, col as int),
    {
        match self.cell_ref(row, col) {
            Some(cell) => cell.clone(),
            None => CellData::default(),
        }
    }

    /// The text that is displayed at a position.
    pub fn cell(&self, row: usize, col: usize) -> (text: String)
        ensures
            text@ == self@.cell(row as int, col as int).value,
    {
        match self.cell_ref(row, col) {
            Some(cell) => cell.value.clone(),
            None => String::new(),
        }
    }

    /// The width of a column.
    pub fn column_width(&self, col: usize) -> (width: Pixels)
        ensures
            width == self@.column_width(col as int),
    {
        if col < self.column_widths.len() && self.column_widths[col].is_positive() {
            self.column_widths[col]
        } else {
            self.default_column_width
        }
    }

    /// The height of a row.
    pub fn row_height(&self, row: usize) -> (height: Pixels)
        ensures
            height == self@.row_height(row as int),
    {
        if row < self.row_heights.len() && self.row_heights[row].is_positive() {
            self.row_heights[row]
        } else {
            self.default_row_height
        }
    }

    /// How the rows are laid out. For each explicit height it has to be said
    /// whether it differs from the default height by less than rounding does.
    pub fn row_layout(&self, near_default: &Vec<bool>) -> (layout: SheetRowLayout)
        requires
            near_default@.len() == self@.row_heights.len(),
        ensures
            layout@ == if forall|row: int|
                0 <= row < near_default@.len() ==> #[trigger] near_default@[row] {
                (SheetRowLayoutView::Uniform {
                    row_count: self@.row_count,
                    height: self@.default_row_height,
                })
            } else {
                (SheetRowLayoutView::Explicit {
                    heights: Seq::new(self@.row_count, |row: int| self@.row_height(row)),
                })
            },
    {
        let mut row: usize = 0;
        while row < near_default.len() && near_default[row]
            invariant
                row <= near_default@.len(),
                forall|r: int| 0 <= r < row ==> #[trigger] near_default@[r],
            decreases near_default@.len() - row,
        {
            row += 1;
        }
        if row == near_default.len() {
            return SheetRowLayout::Uniform {
                row_count: self.row_count,
                height: self.default_row_height,
            };
        }
        assert(!near_default@[row as int]);
        let ghost expected = Seq::new(self@.row_count, |row: int| self@.row_height(row));
        let mut heights: Vec<Pixels> = Vec::new();
        let mut index: usize = 0;
        while index < self.row_count
            invariant
                index <= self.row_count,
                expected == Seq::new(self@.row_count, |row: int| self@.row_height(row)),
                heights@ == expected.take(index as int),
            decreases self.row_count - index,
        {
            heights.push(self.row_height(index));
            index += 1;
            assert(heights@ =~= expected.take(index as int));
        }
        assert(expected.take(index as int) == expected);
        SheetRowLayout::Explicit { heights }
    }

    /// The number at a position, by its bit pattern, where there is one.
    pub fn numeric_value(&self, row: usize, col: usize) -> (number: Option<u64>)
        ensures
            number == self@.number(row as int, col as int),
    {
        match self.cell_ref(row, col) {
            Some(cell) => match cell.raw_value {
                CellRawValue::Number { bits } => Some(bits),
                _ => None,
            },
            None => None,
        }
    }

    /// Whether a cell of the sheet has a formula but displays nothing.
    pub fn has_missing_formula_values(&self) -> (missing: bool)
        ensures
            missing == self@.lacks_formula_values(),
    {
        let mut row: usize = 0;
        while row < self.row_count
            invariant
                row <= self.row_count,
                forall|r: int, c: int|
                    0 <= r < row && 0 <= c < self.col_count ==> !(#[trigger] self@.cell(
                        r,
                        c,
                    )).lacks_formula_value(),
            decreases self.row_count - row,
        {
            let mut col: usize = 0;
            while col < self.col_count
                invariant
                    row < self.row_count,
                    col <= self.col_count,
                    forall|r: int, c: int|
                        0 <= r < row && 0 <= c < self.col_count ==> !(#[trigger] self@.cell(
                            r,
                            c,
                        )).lacks_formula_value(),
                    forall|c: int|
                        0 <= c < col ==> !(#[trigger] self@.cell(
                            row as int,
                            c,
                        )).lacks_formula_value(),
                decreases self.col_count - col,
            {
                if let Some(cell) = self.cell_ref(row, col) {
                    if cell.lacks_formula_value() {
                        assert(self@.cell(row as int, col as int).lacks_formula_value());
                        return true;
                    }
                }
                col += 1;
            }
            row += 1;
        }
        false
    }
}

/// Of a row in memory the sheet has its cells at the row's own number; elsewhere it displays
/// nothing, and nothing there counts as a value.
pub proof fn rows_stand_at_their_numbers(sheet: SheetView, row: int, col: int)
    requires
        0 <= row,
        0 <= col,
    ensures
        row < sheet.rows.len() && col < sheet.rows[row].len() ==> sheet.cell(
            sheet.first_row + row,
            col,
        ) == sheet.rows[row][col],
        row < sheet.rows.len() && col >= sheet.rows[row].len() ==> sheet.cell(
            sheet.first_row + row,
            col,
        ).value == Seq::<char>::empty(),
        row < sheet.first_row || row >= sheet.first_row + sheet.rows.len() ==> sheet.cell(
            row,
            col,
        ).value == Seq::<char>::empty() && sheet.cell(row, col).raw_value == CellRawValue::Empty
            && sheet.cell(row, col).formula is None,
        sheet.number(row, col) is Some <==> sheet.cell(row, col).raw_value is Number,
        sheet.number(row, col) is Some ==> sheet.number(row, col)->0 == sheet.cell(
            row,
            col,
        ).raw_value->bits,
{
}

/// A column or a row has its own extent where that is greater than zero, and else the default
/// one.
pub proof fn own_extents_come_first(sheet: SheetView, index: int)
    requires
        0 <= index,
    ensures
        index < sheet.column_widths.len() && (Pixels { bits: 0 }).lt(sheet.column_widths[index])
            ==> sheet.column_width(index) == sheet.column_widths[index],
        index >= sheet.column_widths.len() || !(Pixels { bits: 0 }).lt(sheet.column_widths[index])
            ==> sheet.column_width(index) == sheet.default_column_width,
        index < sheet.row_heights.len() && (Pixels { bits: 0 }).lt(sheet.row_heights[index])
            ==> sheet.row_height(index) == sheet.row_heights[index],
        index >= sheet.row_heights.len() || !(Pixels { bits: 0 }).lt(sheet.row_heights[index])
            ==> sheet.row_height(index) == sheet.default_row_height,
{
}

/// Every row gets a height: the given one where it is greater than zero, and also where it is
/// no number; else the one that its contents ask for.
pub proof fn given_heights_come_first(heights: Seq<Pixels>, automatic: Seq<Pixels>, row: int)
    requires
        0 <= row < automatic.len(),
    ensures
        displayed_heights(heights, automatic).len() == automatic.len(),
        row < heights.len() && (Pixels { bits: 0 }).lt(heights[row]) ==> displayed_heights(
            heights,
            automatic,
        )[row] == heights[row],
        row < heights.len() && heights[row].is_nan() ==> displayed_heights(heights, automatic)[row]
            == heights[row],
        row < heights.len() && heights[row].le((Pixels { bits: 0 })) ==> displayed_heights(
            heights,
            automatic,
        )[row] == automatic[row],
        row >= heights.len() ==> displayed_heights(heights, automatic)[row] == automatic[row],
{
}

proof fn lemma_some_row_is_widest<T>(rows: Seq<Seq<T>>)
    requires
        rows.len() > 0,
    ensures
        exists|row: int| 0 <= row < rows.len() && (#[trigger] rows[row]).len() == widest(rows),
    decreases rows.len(),
{
    let fewer = rows.drop_last();
    if rows.last().len() > widest(fewer) || fewer.len() == 0 {
        assert(rows[rows.len() - 1].len() == widest(rows));
    } else {
        lemma_some_row_is_widest(fewer);
        let row = choose|row: int|
            0 <= row < fewer.len() && (#[trigger] fewer[row]).len() == widest(fewer);
        assert(rows[row].len() == widest(rows));
    }
}

/// A sheet is as wide as the longest of its rows: no row is longer, and one is as long. Without
/// rows it has no columns.
pub proof fn sheets_are_as_wide_as_their_longest_row(rows: Seq<Seq<CellView>>)
    ensures
        forall|row: int| 0 <= row < rows.len() ==> (#[trigger] rows[row]).len() <= widest(rows),
        rows.len() > 0 ==> exists|row: int|
            0 <= row < rows.len() && (#[trigger] rows[row]).len() == widest(rows),
        rows.len() == 0 ==> widest(rows) == 0,
{
    assert forall|row: int| 0 <= row < rows.len() implies (#[trigger] rows[row]).len() <= widest(
        rows,
    ) by {
        lemma_widest(rows, row);
    }
    if rows.len() > 0 {
        lemma_some_row_is_widest(rows);
    }
}

/// A sheet has the name that it was given; without one it has the name of a first sheet.
pub proof fn given_names_are_kept(name: Seq<char>)
    ensures
        sheet_name_or_default(Some(name)) == name,
        sheet_name_or_default(None) == seq!['S', 'h', 'e', 'e', 't', '1'],
{
    reveal_strlit("Sheet1");
    assert("Sheet1"@ =~= seq!['S', 'h', 'e', 'e', 't', '1']);
}

/// Values are missing in a sheet exactly where a cell of it has a formula and displays nothing.
pub proof fn missing_values_are_those_of_formulas(sheet: SheetView)
    ensures
        sheet.lacks_formula_values() <==> exists|row: int, col: int|
            0 <= row < sheet.row_count && 0 <= col < sheet.col_count && (#[trigger] sheet.cell(
                row,
                col,
            )).formula is Some && sheet.cell(row, col).formula->0.len() > 0 && sheet.cell(
                row,
                col,
            ).value.len() == 0,
{
    if sheet.lacks_formula_values() {
        let (row, col) = choose|row: int, col: int|
            0 <= row < sheet.row_count && 0 <= col < sheet.col_count && (#[trigger] sheet.cell(
                row,
                col,
            )).lacks_formula_value();
        assert(sheet.cell(row, col).formula is Some);
    }
    assert forall|row: int, col: int|
        0 <= row < sheet.row_count && 0 <= col < sheet.col_count && (#[trigger] sheet.cell(
            row,
            col,
        )).formula is Some && sheet.cell(row, col).formula->0.len() > 0 && sheet.cell(
            row,
            col,
        ).value.len() == 0 implies sheet.cell(row, col).lacks_formula_value() by {}
}

impl SheetView {
    /// The sheet with other rows in memory.
    pub open spec fn showing(self, first_row: nat, rows: Seq<Seq<CellView>>) -> SheetView {
        SheetView { first_row, rows, ..self }
    }
}

/// A sheet that is in memory as a whole.
pub open spec fn whole_sheet(
    name: Option<Seq<char>>,
    rows: Seq<Seq<CellView>>,
    column_widths: Seq<Pixels>,
    row_heights: Seq<Pixels>,
    default_column_width: Pixels,
    default_row_height: Pixels,
) -> SheetView {
    SheetView {
        name: sheet_name_or_default(name),
        first_row: 0,
        rows,
        row_count: rows.len(),
        col_count: widest(rows),
        column_widths,
        row_heights,
        default_column_width,
        default_row_height,
        fully_loaded: true,
        freeze: SheetFreeze { rows: 0, columns: 0 },
        merges: Seq::empty(),
    }
}

/// A sheet that is made of rows has each of their cells at its row and its column, counts all of
/// them in, and has nothing beyond them; it has the sizes that it was given.
pub proof fn sheets_hold_the_rows_they_are_made_of(
    name: Option<Seq<char>>,
    rows: Seq<Seq<CellView>>,
    column_widths: Seq<Pixels>,
    row_heights: Seq<Pixels>,
    default_column_width: Pixels,
    default_row_height: Pixels,
    row: int,
    col: int,
)
    requires
        0 <= row,
        0 <= col,
    ensures
        ({
            let sheet = whole_sheet(
                name,
                rows,
                column_widths,
                row_heights,
                default_column_width,
                default_row_height,
            );
            &&& sheet.fully_loaded && sheet.merges.len() == 0 && sheet.freeze.rows == 0
                && sheet.freeze.columns == 0
            &&& name is Some ==> sheet.name == name->0
            &&& row < sheet.row_count <==> row < rows.len()
            &&& row < rows.len() && col < rows[row].len() ==> col < sheet.col_count && sheet.cell(
                row,
                col,
            ) == rows[row][col]
            &&& row >= rows.len() || col >= rows[row].len() ==> sheet.cell(row, col).value
                == Seq::<char>::empty() && sheet.cell(row, col).formula is None
            &&& col < column_widths.len() && (Pixels { bits: 0 }).lt(column_widths[col])
                ==> sheet.column_width(col) == column_widths[col]
            &&& col >= column_widths.len() ==> sheet.column_width(col) == default_column_width
            &&& row < row_heights.len() && (Pixels { bits: 0 }).lt(row_heights[row])
                ==> sheet.row_height(row) == row_heights[row]
            &&& row >= row_heights.len() ==> sheet.row_height(row) == default_row_height
        }),
{
    if row < rows.len() {
        lemma_widest(rows, row);
    }
}

/// A sheet that shows other rows has their cells from the first shown row on, and nothing in
/// rows that it does not show; its size, its name and what is frozen or merged stay.
pub proof fn shown_rows_stand_at_their_numbers(
    sheet: SheetView,
    first_row: nat,
    rows: Seq<Seq<CellView>>,
    row: int,
    col: int,
)
    requires
        0 <= row,
        0 <= col,
    ensures
        ({
            let after = sheet.showing(first_row, rows);
            &&& row < rows.len() && col < rows[row].len() ==> after.cell(first_row + row, col)
                == rows[row][col]
            &&& row < first_row || row >= first_row + rows.len() ==> after.cell(row, col).value
                == Seq::<char>::empty()
            &&& after.row_count == sheet.row_count && after.col_count == sheet.col_count
            &&& after.name == sheet.name && after.freeze == sheet.freeze && after.merges
                == sheet.merges
            &&& after.column_width(col) == sheet.column_width(col)
            &&& after.row_height(row) == sheet.row_height(row)
        }),
{
}

} // verus!
