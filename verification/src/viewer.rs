//! The viewer's state: what is selected, dragged and typed.

use vstd::prelude::*;

use crate::cell::text_view;
use crate::layout::{vertical_scroll_drag_update_interval, SheetLayout, SheetLayoutView};
use crate::merges::{standing_for, SheetMerges};
use crate::namebox::{
    parse_name_box_reference, reference_of, selected, NameRef, Selection,
};
use crate::pixels::Pixels;
use crate::range::{CellCoord, CellRange};
use crate::text::{same_text, text_from, to_chars};

verus! {

/// Which number sums a selection up.
#[derive(Debug, Clone, Copy, PartialEq, Eq, Structural)]
pub enum SummaryMetric {
    Sum,
    Mean,
    Min,
    Max,
}

impl SummaryMetric {
    /// What the metric is called.
    pub open spec fn name(self) -> Seq<char> {
        match self {
            SummaryMetric::Sum => "Sum"@,
            SummaryMetric::Mean => "Mean"@,
            SummaryMetric::Min => "Min"@,
            SummaryMetric::Max => "Max"@,
        }
    }

    /// What the metric is called.
    pub fn label(self) -> (label: &'static str)
        ensures
            label@ == self.name(),
    {
        match self {
            SummaryMetric::Sum => "Sum",
            SummaryMetric::Mean => "Mean",
            SummaryMetric::Min => "Min",
            SummaryMetric::Max => "Max",
        }
    }
}

/// What the viewer knows of a sheet.
pub struct SheetShape {
    pub row_count: usize,
    pub col_count: usize,
    pub merges: SheetMerges,
}

/// The mathematical content of a [`SheetShape`].
#[verifier::ext_equal]
pub struct SheetShapeView {
    pub row_count: nat,
    pub col_count: nat,
    pub merges: Seq<CellRange>,
}

impl View for SheetShape {
    type V = SheetShapeView;

    open spec fn view(&self) -> SheetShapeView {
        SheetShapeView {
            row_count: self.row_count as nat,
            col_count: self.col_count as nat,
            merges: self.merges@,
        }
    }
}

/// Rows or columns whose size is being dragged.
pub enum ResizeDrag {
    Columns { start_x: Pixels, columns: Vec<usize>, start_widths: Vec<Pixels> },
    Rows { start_y: Pixels, rows: Vec<usize>, start_heights: Vec<Pixels> },
}

/// The mathematical content of a [`ResizeDrag`].
#[verifier::ext_equal]
pub enum ResizeDragView {
    Columns { start_x: Pixels, columns: Seq<usize>, start_widths: Seq<Pixels> },
    Rows { start_y: Pixels, rows: Seq<usize>, start_heights: Seq<Pixels> },
}

impl View for ResizeDrag {
    type V = ResizeDragView;

    open spec fn view(&self) -> ResizeDragView {
        match self {
            ResizeDrag::Columns { start_x, columns, start_widths } => ResizeDragView::Columns {
                start_x: *start_x,
                columns: columns@,
                start_widths: start_widths@,
            },
            ResizeDrag::Rows { start_y, rows, start_heights } => ResizeDragView::Rows {
                start_y: *start_y,
                rows: rows@,
                start_heights: start_heights@,
            },
        }
    }
}

/// The border of the frozen panes while it is being dragged, by where its axis
/// begins on the screen.
#[derive(Debug, Clone, Copy, PartialEq, Eq, Structural)]
pub enum FreezeDrag {
    Columns { axis_origin_x: Pixels },
    Rows { axis_origin_y: Pixels },
}

/// A scrollbar that is being dragged, by where the pointer holds its thumb.
#[derive(Debug, Clone, Copy, PartialEq, Eq, Structural)]
pub enum ScrollbarDrag {
    Horizontal { pointer_offset: Pixels },
    Vertical {
        pointer_offset: Pixels,
        /// Where the thumb is, which may be ahead of the sheet.
        scroll_position: Pixels,
        /// When the sheet last moved, in nanoseconds.
        last_sheet_update: u64,
    },
}

/// The direction of a scrollbar.
#[derive(Debug, Clone, Copy, PartialEq, Eq, Structural)]
pub enum ScrollbarAxis {
    Horizontal,
    Vertical,
}

/// The viewer's state.
pub struct ViewerState {
    pub shapes: Vec<SheetShape>,
    pub active_sheet: usize,
    pub selection: Selection,
    /// The cell that a selection is being dragged from.
    pub selection_drag: Option<CellCoord>,
    pub resize_drag: Option<ResizeDrag>,
    pub freeze_drag: Option<FreezeDrag>,
    pub scrollbar_drag: Option<ScrollbarDrag>,
    pub summary_metric: SummaryMetric,
    pub show_summary_menu: bool,
    /// What stands in the name box while it is edited.
    pub name_box_input: Option<String>,
    /// Whether the next character typed replaces what stands in the name box.
    pub name_box_select_all: bool,
    /// How far the sheet is scrolled down.
    pub vertical_offset: Pixels,
}

/// The mathematical content of a [`ViewerState`].
#[verifier::ext_equal]
pub struct ViewerView {
    pub shapes: Seq<SheetShapeView>,
    pub active_sheet: nat,
    pub selection: Selection,
    pub selection_drag: Option<CellCoord>,
    pub resize_drag: Option<ResizeDragView>,
    pub freeze_drag: Option<FreezeDrag>,
    pub scrollbar_drag: Option<ScrollbarDrag>,
    pub summary_metric: SummaryMetric,
    pub show_summary_menu: bool,
    pub name_box_input: Option<Seq<char>>,
    pub name_box_select_all: bool,
    pub vertical_offset: Pixels,
}

/// The content of the shapes of sheets.
pub open spec fn shapes_view(shapes: Seq<SheetShape>) -> Seq<SheetShapeView> {
    shapes.map_values(|shape: SheetShape| shape@)
}

impl View for ViewerState {
    type V = ViewerView;

    open spec fn view(&self) -> ViewerView {
        ViewerView {
            shapes: shapes_view(self.shapes@),
            active_sheet: self.active_sheet as nat,
            selection: self.selection,
            selection_drag: self.selection_drag,
            resize_drag: match self.resize_drag {
                Some(drag) => Some(drag@),
                None => None,
            },
            freeze_drag: self.freeze_drag,
            scrollbar_drag: self.scrollbar_drag,
            summary_metric: self.summary_metric,
            show_summary_menu: self.show_summary_menu,
            name_box_input: text_view(self.name_box_input),
            name_box_select_all: self.name_box_select_all,
            vertical_offset: self.vertical_offset,
        }
    }
}

/// The index of the last of so many; zero where there is none.
pub open spec fn last_of(count: nat) -> usize {
    if count == 0 {
        0
    } else {
        (count - 1) as usize
    }
}

/// The first cell.
pub open spec fn first_cell() -> CellCoord {
    CellCoord { row: 0, col: 0 }
}

/// The indices from one up to another, as far as there are so many.
pub open spec fn indices_between(first: int, last: int, count: nat) -> Seq<usize> {
    let end = if last + 1 <= count {
        last + 1
    } else {
        count as int
    };
    Seq::new(
        if first < end {
            (end - first) as nat
        } else {
            0
        },
        |i: int| (first + i) as usize,
    )
}

/// Indices paired with sizes, as far as there are both.
pub open spec fn paired(indices: Seq<usize>, sizes: Seq<Pixels>) -> Seq<(usize, Pixels)> {
    Seq::new(
        if indices.len() <= sizes.len() {
            indices.len()
        } else {
            sizes.len()
        },
        |i: int| (indices[i], sizes[i]),
    )
}

impl ViewerView {
    /// Whether there is an active sheet.
    pub open spec fn wf(self) -> bool {
        self.active_sheet < self.shapes.len()
    }

    /// The shape of the active sheet.
    pub open spec fn shape(self) -> SheetShapeView {
        self.shapes[self.active_sheet as int]
    }

    /// The state at the start.
    pub open spec fn initial(shapes: Seq<SheetShapeView>, active_sheet: nat) -> Self {
        ViewerView {
            shapes,
            active_sheet,
            selection: selected(first_cell(), first_cell()),
            selection_drag: None,
            resize_drag: None,
            freeze_drag: None,
            scrollbar_drag: None,
            summary_metric: SummaryMetric::Sum,
            show_summary_menu: false,
            name_box_input: None,
            name_box_select_all: false,
            vertical_offset: Pixels { bits: 0 },
        }
    }

    /// The state behind a switch to another sheet.
    pub open spec fn on_sheet(self, sheet: nat) -> Self {
        ViewerView {
            active_sheet: sheet,
            selection: selected(first_cell(), first_cell()),
            name_box_input: None,
            name_box_select_all: false,
            selection_drag: None,
            show_summary_menu: false,
            vertical_offset: Pixels { bits: 0 },
            ..self
        }
    }

    /// The state with another selection, which is dragged from a cell or not.
    pub open spec fn with_selection(self, selection: Selection, drag: Option<CellCoord>) -> Self {
        ViewerView {
            selection,
            selection_drag: drag,
            resize_drag: None,
            show_summary_menu: false,
            ..self
        }
    }

    /// The selection that a click on a cell makes.
    pub open spec fn clicked(self, coord: CellCoord, extend: bool) -> Selection {
        let coord = standing_for(self.shape().merges, coord);
        if extend {
            selected(self.selection.anchor, coord)
        } else {
            selected(coord, coord)
        }
    }

    /// The selection of whole columns up to one.
    pub open spec fn columns_up_to(self, col: usize, extend: bool) -> Selection {
        selected(
            CellCoord {
                row: 0,
                col: if extend {
                    self.selection.anchor.col
                } else {
                    col
                },
            },
            CellCoord { row: last_of(self.shape().row_count), col },
        )
    }

    /// The selection of whole rows up to one.
    pub open spec fn rows_up_to(self, row: usize, extend: bool) -> Selection {
        selected(
            CellCoord {
                row: if extend {
                    self.selection.anchor.row
                } else {
                    row
                },
                col: 0,
            },
            CellCoord { row, col: last_of(self.shape().col_count) },
        )
    }

    /// The selection of the whole sheet.
    pub open spec fn everything(self) -> Selection {
        selected(
            first_cell(),
            CellCoord {
                row: last_of(self.shape().row_count),
                col: last_of(self.shape().col_count),
            },
        )
    }

    /// Whether another selection changes what is displayed.
    pub open spec fn changes_with(self, selection: Selection) -> bool {
        self.selection != selection || self.show_summary_menu
    }

    /// The columns that are resized together with one: all selected ones if it
    /// is selected.
    pub open spec fn resized_columns(self, col: usize) -> Seq<usize> {
        let range = self.selection.range;
        if range.has_col(col as int) {
            indices_between(
                range.left_col() as int,
                range.right_col() as int,
                self.shape().col_count,
            )
        } else {
            seq![col]
        }
    }

    /// The rows that are resized together with one: all selected ones if it is
    /// selected.
    pub open spec fn resized_rows(self, row: usize) -> Seq<usize> {
        let range = self.selection.range;
        if range.has_row(row as int) {
            indices_between(
                range.top_row() as int,
                range.bottom_row() as int,
                self.shape().row_count,
            )
        } else {
            seq![row]
        }
    }

    /// What is being resized, with the sizes at the start.
    pub open spec fn sizes_at_start(self) -> Seq<(usize, Pixels)> {
        match self.resize_drag {
            None => Seq::empty(),
            Some(ResizeDragView::Columns { start_x, columns, start_widths }) => paired(
                columns,
                start_widths,
            ),
            Some(ResizeDragView::Rows { start_y, rows, start_heights }) => paired(
                rows,
                start_heights,
            ),
        }
    }

    /// The state behind going to what an address means.
    pub open spec fn gone_to(self, name_ref: NameRef) -> Self {
        match name_ref {
            NameRef::Cell(coord) => {
                let selection = self.clicked(coord, false);
                self.with_selection(selection, Some(selection.anchor))
            },
            NameRef::Column(col) => self.with_selection(self.columns_up_to(col, false), None),
            NameRef::Row(row) => self.with_selection(self.rows_up_to(row, false), None),
        }
    }
}

/// An offset, no less than zero and no further than the largest one.
pub open spec fn within_offsets(offset: Pixels, max_offset: Pixels) -> Pixels {
    if offset.lt(Pixels { bits: 0 }) {
        Pixels { bits: 0 }
    } else if max_offset.lt(offset) {
        max_offset
    } else {
        offset
    }
}

/// How long the sheet stays as it is while the scrollbar is dragged, in
/// nanoseconds.
pub open spec fn drag_pace(is_fully_loaded: bool) -> int {
    if is_fully_loaded {
        50_000_000
    } else {
        200_000_000
    }
}

impl ViewerView {
    /// The state behind a move of the vertical scrollbar's thumb. The thumb
    /// follows at once, the sheet only after a while.
    pub open spec fn after_thumb_move(
        self,
        position: Pixels,
        now: u64,
        is_fully_loaded: bool,
        max_offset: Pixels,
    ) -> Self {
        match self.scrollbar_drag {
            Some(
                ScrollbarDrag::Vertical { pointer_offset, scroll_position, last_sheet_update },
            ) => if now - last_sheet_update >= drag_pace(is_fully_loaded) {
                ViewerView {
                    vertical_offset: within_offsets(position, max_offset),
                    scrollbar_drag: Some(
                        ScrollbarDrag::Vertical {
                            pointer_offset,
                            scroll_position: position,
                            last_sheet_update: now,
                        },
                    ),
                    ..self
                }
            } else {
                ViewerView {
                    scrollbar_drag: Some(
                        ScrollbarDrag::Vertical {
                            pointer_offset,
                            scroll_position: position,
                            last_sheet_update,
                        },
                    ),
                    ..self
                }
            },
            _ => self,
        }
    }

    /// The state behind the release of the vertical scrollbar: the sheet is where
    /// the thumb is.
    pub open spec fn after_thumb_release(self, max_offset: Pixels) -> Self {
        ViewerView {
            vertical_offset: match self.scrollbar_drag {
                Some(ScrollbarDrag::Vertical { pointer_offset, scroll_position, last_sheet_update })
                    => within_offsets(scroll_position, max_offset),
                _ => self.vertical_offset,
            },
            scrollbar_drag: None,
            ..self
        }
    }
}

/// The cell that is brought to the middle of the view by an address.
pub open spec fn center_of(name_ref: NameRef) -> CellCoord {
    match name_ref {
        NameRef::Cell(coord) => coord,
        NameRef::Column(col) => CellCoord { row: 0, col },
        NameRef::Row(row) => CellCoord { row, col: 0 },
    }
}

/// Lists the indices from one up to another, as far as there are so many.
fn list_indices(first: usize, last: usize, count: usize) -> (indices: Vec<usize>)
    ensures
        indices@ == indices_between(first as int, last as int, count as nat),
{
    let end: usize = if last < count {
        last + 1
    } else {
        count
    };
    let mut indices: Vec<usize> = Vec::new();
    let mut index: usize = first;
    while index < end
        invariant
            first <= index,
            index <= end || index == first,
            indices@ == Seq::new((index - first) as nat, |i: int| (first + i) as usize),
        decreases end - index,
    {
        indices.push(index);
        index += 1;
        assert(indices@ =~= Seq::new((index - first) as nat, |i: int| (first + i) as usize));
    }
    indices
}

/// What comes of a key that is pressed in the name box.
#[derive(Debug, Clone, Copy, PartialEq, Eq, Structural)]
pub struct KeyOutcome {
    /// Whether the box closes and the grid gets the focus back.
    pub closes: bool,
    /// Whether what is displayed changes.
    pub changes: bool,
    /// The cell to bring to the middle of the view, where there is one.
    pub center: Option<CellCoord>,
}

/// Whether a character is a control character.
pub open spec fn is_control_char(ch: char) -> bool {
    ch <= '\u{1f}' || '\u{7f}' <= ch <= '\u{9f}'
}

/// Whether a text is not empty and holds no control character.
pub open spec fn is_typed_text(text: Seq<char>) -> bool {
    text.len() > 0 && forall|i: int| 0 <= i < text.len() ==> !is_control_char(#[trigger] text[i])
}

/// Whether a text is not empty and holds no control character.
fn typed_text(text: &str) -> (is: bool)
    ensures
        is == is_typed_text(text@),
{
    let chars = to_chars(text);
    let mut index: usize = 0;
    while index < chars.len()
        invariant
            index <= chars@.len(),
            chars@ == text@,
            forall|i: int| 0 <= i < index ==> !is_control_char(#[trigger] chars@[i]),
        decreases chars@.len() - index,
    {
        let ch = chars[index];
        if ch <= '\u{1f}' || ('\u{7f}' <= ch && ch <= '\u{9f}') {
            assert(is_control_char(chars@[index as int]));
            return false;
        }
        index += 1;
    }
    chars.len() > 0
}

impl ViewerView {
    /// The state behind a key that is pressed in the name box, and what comes of
    /// it. Keys count only while the box is edited.
    pub open spec fn after_key(self, key: Seq<char>, key_char: Option<Seq<char>>) -> (
        Self,
        KeyOutcome,
    ) {
        let nothing = KeyOutcome { closes: false, changes: false, center: None };
        match self.name_box_input {
            None => (self, nothing),
            Some(input) => if key == "escape"@ {
                (
                    ViewerView { name_box_input: None, ..self },
                    KeyOutcome { closes: true, changes: true, center: None },
                )
            } else if key == "enter"@ {
                let closed = ViewerView { name_box_input: None, ..self };
                match reference_of(input, self.shape().col_count, self.shape().row_count) {
                    Some(name_ref) => (
                        closed.gone_to(name_ref),
                        KeyOutcome {
                            closes: true,
                            changes: true,
                            center: Some(center_of(name_ref)),
                        },
                    ),
                    None => (closed, KeyOutcome { closes: true, changes: true, center: None }),
                }
            } else if key == "backspace"@ {
                let shorter = if self.name_box_select_all || input.len() == 0 {
                    Seq::empty()
                } else {
                    input.drop_last()
                };
                (
                    ViewerView {
                        name_box_input: Some(shorter),
                        name_box_select_all: false,
                        ..self
                    },
                    KeyOutcome { closes: false, changes: true, center: None },
                )
            } else if key_char is Some && is_typed_text(key_char->0) {
                let kept = if self.name_box_select_all {
                    Seq::empty()
                } else {
                    input
                };
                (
                    ViewerView {
                        name_box_input: Some(kept + key_char->0),
                        name_box_select_all: false,
                        ..self
                    },
                    KeyOutcome { closes: false, changes: true, center: None },
                )
            } else {
                (self, nothing)
            },
        }
    }

    /// The state behind a click into the name box, which shows an address.
    pub open spec fn after_name_box_click(self, address: Seq<char>, double: bool) -> Self {
        if double {
            ViewerView {
                name_box_input: Some(address),
                name_box_select_all: true,
                ..self
            }
        } else if self.name_box_input is None {
            ViewerView {
                name_box_input: Some(address),
                name_box_select_all: false,
                ..self
            }
        } else {
            ViewerView { name_box_select_all: false, ..self }
        }
    }
}

impl ViewerState {
    /// The state at the start.
    pub fn new(shapes: Vec<SheetShape>, active_sheet: usize) -> (state: ViewerState)
        requires
            active_sheet < shapes@.len(),
        ensures
            state@ == ViewerView::initial(shapes_view(shapes@), active_sheet as nat),
            state@.wf(),
    {
        ViewerState {
            shapes,
            active_sheet,
            selection: Selection::single(CellCoord { row: 0, col: 0 }),
            selection_drag: None,
            resize_drag: None,
            freeze_drag: None,
            scrollbar_drag: None,
            summary_metric: SummaryMetric::Sum,
            show_summary_menu: false,
            name_box_input: None,
            name_box_select_all: false,
            vertical_offset: Pixels { bits: 0 },
        }
    }

    /// Switches to another sheet. Tells whether that changed anything.
    pub fn switch_sheet(&mut self, sheet_ix: usize) -> (changed: bool)
        requires
            old(self)@.wf(),
        ensures
            changed == (sheet_ix < old(self)@.shapes.len() && sheet_ix != old(self)@.active_sheet),
            final(self)@ == if changed {
                old(self)@.on_sheet(sheet_ix as nat)
            } else {
                old(self)@
            },
            final(self)@ == old(self)@.switched_to(sheet_ix as nat),
            final(self)@.wf(),
    {
        if sheet_ix >= self.shapes.len() || sheet_ix == self.active_sheet {
            return false;
        }
        self.active_sheet = sheet_ix;
        self.selection = Selection::single(CellCoord { row: 0, col: 0 });
        self.name_box_input = None;
        self.name_box_select_all = false;
        self.selection_drag = None;
        self.show_summary_menu = false;
        self.vertical_offset = Pixels { bits: 0 };
        true
    }

    /// Puts another selection in place. Tells whether that changed anything.
    fn replace_selection(&mut self, selection: Selection, drag: Option<CellCoord>) -> (changed: bool)
        ensures
            final(self)@ == old(self)@.with_selection(selection, drag),
            changed == old(self)@.changes_with(selection),
    {
        let changed = self.selection != selection || self.show_summary_menu;
        self.selection = selection;
        self.selection_drag = drag;
        self.resize_drag = None;
        self.show_summary_menu = false;
        changed
    }

    /// Selects a cell, or extends the selection to it. A cell hidden underneath a
    /// merged region stands for the region's anchor.
    pub fn select_cell(&mut self, coord: CellCoord, extend: bool) -> (changed: bool)
        requires
            old(self)@.wf(),
        ensures
            ({
                let selection = old(self)@.clicked(coord, extend);
                &&& final(self)@ == old(self)@.with_selection(selection, Some(selection.anchor))
                &&& changed == old(self)@.changes_with(selection)
            }),
    {
        let coord = self.shapes[self.active_sheet].merges.anchor_coord(coord);
        let selection = if extend {
            self.selection.extend_to(coord)
        } else {
            Selection::single(coord)
        };
        self.replace_selection(selection, Some(selection.anchor))
    }

    /// Drags the selection to a cell. Tells whether that changed anything; it
    /// does not where no selection is being dragged.
    pub fn drag_to_cell(&mut self, coord: CellCoord) -> (changed: bool)
        requires
            old(self)@.wf(),
        ensures
            match old(self)@.selection_drag {
                None => !changed && final(self)@ == old(self)@,
                Some(anchor) => {
                    let selection = selected(
                        anchor,
                        standing_for(old(self)@.shape().merges, coord),
                    );
                    &&& changed == old(self)@.changes_with(selection)
                    &&& final(self)@ == (ViewerView {
                        selection,
                        show_summary_menu: false,
                        ..old(self)@
                    })
                },
            },
            final(self)@ == old(self)@.dragged_to(coord),
    {
        let coord = self.shapes[self.active_sheet].merges.anchor_coord(coord);
        match self.selection_drag {
            None => false,
            Some(anchor) => {
                let selection = Selection::select_range(anchor, coord);
                if self.selection == selection && !self.show_summary_menu {
                    return false;
                }
                self.selection = selection;
                self.show_summary_menu = false;
                true
            },
        }
    }

    /// Selects a whole column, or the columns up to it.
    pub fn select_col(&mut self, col: usize, extend: bool) -> (changed: bool)
        requires
            old(self)@.wf(),
        ensures
            final(self)@ == old(self)@.with_selection(old(self)@.columns_up_to(col, extend), None),
            changed == old(self)@.changes_with(old(self)@.columns_up_to(col, extend)),
    {
        let row_count: usize = self.shapes[self.active_sheet].row_count;
        let max_row: usize = if row_count == 0 {
            0
        } else {
            row_count - 1
        };
        let anchor_col: usize = if extend {
            self.selection.anchor.col
        } else {
            col
        };
        let selection = Selection::select_range(
            CellCoord { row: 0, col: anchor_col },
            CellCoord { row: max_row, col },
        );
        self.replace_selection(selection, None)
    }

    /// Selects a whole row, or the rows up to it.
    pub fn select_row(&mut self, row: usize, extend: bool) -> (changed: bool)
        requires
            old(self)@.wf(),
        ensures
            final(self)@ == old(self)@.with_selection(old(self)@.rows_up_to(row, extend), None),
            changed == old(self)@.changes_with(old(self)@.rows_up_to(row, extend)),
    {
        let col_count: usize = self.shapes[self.active_sheet].col_count;
        let max_col: usize = if col_count == 0 {
            0
        } else {
            col_count - 1
        };
        let anchor_row: usize = if extend {
            self.selection.anchor.row
        } else {
            row
        };
        let selection = Selection::select_range(
            CellCoord { row: anchor_row, col: 0 },
            CellCoord { row, col: max_col },
        );
        self.replace_selection(selection, None)
    }

    /// Selects the whole sheet.
    pub fn select_sheet(&mut self) -> (changed: bool)
        requires
            old(self)@.wf(),
        ensures
            final(self)@ == old(self)@.with_selection(old(self)@.everything(), None),
            changed == old(self)@.changes_with(old(self)@.everything()),
    {
        let row_count: usize = self.shapes[self.active_sheet].row_count;
        let col_count: usize = self.shapes[self.active_sheet].col_count;
        let max_row: usize = if row_count == 0 {
            0
        } else {
            row_count - 1
        };
        let max_col: usize = if col_count == 0 {
            0
        } else {
            col_count - 1
        };
        let selection = Selection::select_range(
            CellCoord { row: 0, col: 0 },
            CellCoord { row: max_row, col: max_col },
        );
        self.replace_selection(selection, None)
    }

    /// Goes to what an address means. Returns the cell to bring to the middle of
    /// the view.
    pub fn apply_name_ref(&mut self, name_ref: NameRef) -> (center: CellCoord)
        requires
            old(self)@.wf(),
        ensures
            final(self)@ == old(self)@.gone_to(name_ref),
            center == center_of(name_ref),
    {
        match name_ref {
            NameRef::Cell(coord) => {
                self.select_cell(coord, false);
                coord
            },
            NameRef::Column(col) => {
                self.select_col(col, false);
                CellCoord { row: 0, col }
            },
            NameRef::Row(row) => {
                self.select_row(row, false);
                CellCoord { row, col: 0 }
            },
        }
    }

    /// The columns that are resized together with one.
    pub fn resize_columns_for_drag(&self, col_ix: usize) -> (columns: Vec<usize>)
        requires
            self@.wf(),
        ensures
            columns@ == self@.resized_columns(col_ix),
    {
        if self.selection.range.intersects_col(col_ix) {
            let range = self.selection.range.normalized();
            list_indices(
                range.start.col,
                range.end.col,
                self.shapes[self.active_sheet].col_count,
            )
        } else {
            let mut columns: Vec<usize> = Vec::new();
            columns.push(col_ix);
            assert(columns@ =~= seq![col_ix]);
            columns
        }
    }

    /// The rows that are resized together with one.
    pub fn resize_rows_for_drag(&self, row_ix: usize) -> (rows: Vec<usize>)
        requires
            self@.wf(),
        ensures
            rows@ == self@.resized_rows(row_ix),
    {
        if self.selection.range.intersects_row(row_ix) {
            let range = self.selection.range.normalized();
            list_indices(
                range.start.row,
                range.end.row,
                self.shapes[self.active_sheet].row_count,
            )
        } else {
            let mut rows: Vec<usize> = Vec::new();
            rows.push(row_ix);
            assert(rows@ =~= seq![row_ix]);
            rows
        }
    }

    /// Begins to drag the width of a column, or of all selected ones with it.
    pub fn start_column_resize(&mut self, layout: &SheetLayout, col_ix: usize, pointer_x: Pixels)
        requires
            old(self)@.wf(),
        ensures
            final(self)@ == (ViewerView {
                selection_drag: None,
                resize_drag: Some(
                    ResizeDragView::Columns {
                        start_x: pointer_x,
                        columns: old(self)@.resized_columns(col_ix),
                        start_widths: old(self)@.resized_columns(col_ix).map_values(
                            |col: usize| layout_width(layout@, col),
                        ),
                    },
                ),
                show_summary_menu: false,
                ..old(self)@
            }),
    {
        let columns = self.resize_columns_for_drag(col_ix);
        let ghost expected = columns@.map_values(|col: usize| layout_width(layout@, col));
        let mut start_widths: Vec<Pixels> = Vec::new();
        let mut index: usize = 0;
        while index < columns.len()
            invariant
                index <= columns@.len(),
                expected == columns@.map_values(|col: usize| layout_width(layout@, col)),
                start_widths@ == expected.take(index as int),
            decreases columns@.len() - index,
        {
            start_widths.push(layout.column_width(columns[index]));
            index += 1;
            assert(start_widths@ =~= expected.take(index as int));
        }
        assert(expected.take(index as int) == expected);
        self.selection_drag = None;
        self.resize_drag = Some(
            ResizeDrag::Columns { start_x: pointer_x, columns, start_widths },
        );
        self.show_summary_menu = false;
    }

    /// Begins to drag the height of a row, or of all selected ones with it.
    pub fn start_row_resize(&mut self, layout: &SheetLayout, row_ix: usize, pointer_y: Pixels)
        requires
            old(self)@.wf(),
        ensures
            final(self)@ == (ViewerView {
                selection_drag: None,
                resize_drag: Some(
                    ResizeDragView::Rows {
                        start_y: pointer_y,
                        rows: old(self)@.resized_rows(row_ix),
                        start_heights: old(self)@.resized_rows(row_ix).map_values(
                            |row: usize| layout@.rows.height(row as int),
                        ),
                    },
                ),
                show_summary_menu: false,
                ..old(self)@
            }),
    {
        let rows = self.resize_rows_for_drag(row_ix);
        let ghost expected = rows@.map_values(|row: usize| layout@.rows.height(row as int));
        let mut start_heights: Vec<Pixels> = Vec::new();
        let mut index: usize = 0;
        while index < rows.len()
            invariant
                index <= rows@.len(),
                expected == rows@.map_values(|row: usize| layout@.rows.height(row as int)),
                start_heights@ == expected.take(index as int),
            decreases rows@.len() - index,
        {
            start_heights.push(layout.row_height(rows[index]));
            index += 1;
            assert(start_heights@ =~= expected.take(index as int));
        }
        assert(expected.take(index as int) == expected);
        self.selection_drag = None;
        self.resize_drag = Some(ResizeDrag::Rows { start_y: pointer_y, rows, start_heights });
        self.show_summary_menu = false;
    }

    /// The columns or rows that are being resized, with their sizes at the start.
    pub fn resized_from(&self) -> (sizes: Vec<(usize, Pixels)>)
        ensures
            sizes@ == self@.sizes_at_start(),
    {
        let (indices, starts) = match &self.resize_drag {
            None => {
                let none: Vec<(usize, Pixels)> = Vec::new();
                assert(none@ =~= Seq::<(usize, Pixels)>::empty());
                return none;
            },
            Some(ResizeDrag::Columns { columns, start_widths, .. }) => (columns, start_widths),
            Some(ResizeDrag::Rows { rows, start_heights, .. }) => (rows, start_heights),
        };
        let ghost expected = paired(indices@, starts@);
        let mut sizes: Vec<(usize, Pixels)> = Vec::new();
        let mut index: usize = 0;
        while index < indices.len() && index < starts.len()
            invariant
                index <= indices@.len(),
                index <= starts@.len(),
                expected == paired(indices@, starts@),
                sizes@ == expected.take(index as int),
            decreases indices@.len() - index,
        {
            sizes.push((indices[index], starts[index]));
            index += 1;
            assert(sizes@ =~= expected.take(index as int));
        }
        assert(expected.take(index as int) =~= expected);
        sizes
    }

    /// Begins to drag the border of the frozen panes.
    pub fn start_freeze_drag(&mut self, drag: FreezeDrag)
        ensures
            final(self)@ == (ViewerView {
                selection_drag: None,
                resize_drag: None,
                freeze_drag: Some(drag),
                show_summary_menu: false,
                ..old(self)@
            }),
    {
        self.selection_drag = None;
        self.resize_drag = None;
        self.freeze_drag = Some(drag);
        self.show_summary_menu = false;
    }

    /// Ends dragging a size.
    pub fn end_resize(&mut self)
        ensures
            final(self)@ == (ViewerView { resize_drag: None, ..old(self)@ }),
    {
        self.resize_drag = None;
    }

    /// Ends dragging the border of the frozen panes.
    pub fn end_freeze_drag(&mut self)
        ensures
            final(self)@ == (ViewerView { freeze_drag: None, ..old(self)@ }),
    {
        self.freeze_drag = None;
    }

    /// Ends all dragging.
    pub fn release(&mut self)
        ensures
            final(self)@ == (ViewerView {
                selection_drag: None,
                resize_drag: None,
                freeze_drag: None,
                ..old(self)@
            }),
    {
        self.selection_drag = None;
        self.end_resize();
        self.end_freeze_drag();
    }

    /// Takes what a freeze drag aims at over into the layout. Tells whether that
    /// changed anything; other pinned rows also scroll the sheet to the top.
    pub fn pin_to(&mut self, layout: &mut SheetLayout, target: usize) -> (changed: bool)
        requires
            old(layout)@.wf(),
        ensures
            match old(self)@.freeze_drag {
                None => !changed && final(self)@ == old(self)@ && final(layout)@ == old(layout)@,
                Some(FreezeDrag::Columns { axis_origin_x }) => {
                    &&& final(self)@ == old(self)@
                    &&& final(layout)@ == (SheetLayoutView {
                        pinned_columns: crate::layout::smaller(
                            target as nat,
                            old(layout)@.column_widths.len(),
                        ),
                        ..old(layout)@
                    })
                    &&& changed == (final(layout)@.pinned_columns != old(layout)@.pinned_columns)
                },
                Some(FreezeDrag::Rows { axis_origin_y }) => {
                    &&& final(layout)@ == (SheetLayoutView {
                        pinned_rows: crate::layout::smaller(
                            target as nat,
                            old(layout)@.rows.count(),
                        ),
                        ..old(layout)@
                    })
                    &&& changed == (final(layout)@.pinned_rows != old(layout)@.pinned_rows)
                    &&& final(self)@ == if changed {
                        (ViewerView { vertical_offset: Pixels { bits: 0 }, ..old(self)@ })
                    } else {
                        old(self)@
                    }
                },
            },
            final(layout)@.wf(),
    {
        match self.freeze_drag {
            None => false,
            Some(FreezeDrag::Columns { .. }) => layout.set_pinned_columns(target),
            Some(FreezeDrag::Rows { .. }) => {
                let changed = layout.set_pinned_rows(target);
                if changed {
                    self.vertical_offset = Pixels { bits: 0 };
                }
                changed
            },
        }
    }

    /// Scrolls to an offset, no further than to the largest one.
    pub fn set_vertical_offset(&mut self, offset: Pixels, max_offset: Pixels)
        ensures
            final(self)@ == (ViewerView {
                vertical_offset: within_offsets(offset, max_offset),
                ..old(self)@
            }),
    {
        self.vertical_offset = if offset.is_less(Pixels { bits: 0 }) {
            Pixels { bits: 0 }
        } else if max_offset.is_less(offset) {
            max_offset
        } else {
            offset
        };
    }

    /// Begins to drag a scrollbar.
    pub fn grab_scrollbar(
        &mut self,
        axis: ScrollbarAxis,
        pointer_offset: Pixels,
        scroll_position: Pixels,
        now: u64,
    )
        ensures
            final(self)@ == (ViewerView {
                scrollbar_drag: Some(
                    match axis {
                        ScrollbarAxis::Horizontal => ScrollbarDrag::Horizontal { pointer_offset },
                        ScrollbarAxis::Vertical => ScrollbarDrag::Vertical {
                            pointer_offset,
                            scroll_position,
                            last_sheet_update: now,
                        },
                    },
                ),
                ..old(self)@
            }),
    {
        self.scrollbar_drag = Some(
            match axis {
                ScrollbarAxis::Horizontal => ScrollbarDrag::Horizontal { pointer_offset },
                ScrollbarAxis::Vertical => ScrollbarDrag::Vertical {
                    pointer_offset,
                    scroll_position,
                    last_sheet_update: now,
                },
            },
        );
    }

    /// Where the pointer holds the thumb of a scrollbar, if it is being dragged.
    pub fn drag_pointer_offset(&self, axis: ScrollbarAxis) -> (offset: Option<Pixels>)
        ensures
            offset == match (axis, self@.scrollbar_drag) {
                (
                    ScrollbarAxis::Horizontal,
                    Some(ScrollbarDrag::Horizontal { pointer_offset }),
                ) => Some(pointer_offset),
                (
                    ScrollbarAxis::Vertical,
                    Some(
                        ScrollbarDrag::Vertical {
                            pointer_offset,
                            scroll_position,
                            last_sheet_update,
                        },
                    ),
                ) => Some(pointer_offset),
                _ => None,
            },
    {
        match (axis, self.scrollbar_drag) {
            (
                ScrollbarAxis::Horizontal,
                Some(ScrollbarDrag::Horizontal { pointer_offset }),
            ) => Some(pointer_offset),
            (
                ScrollbarAxis::Vertical,
                Some(ScrollbarDrag::Vertical { pointer_offset, .. }),
            ) => Some(pointer_offset),
            _ => None,
        }
    }

    /// Where the vertical scrollbar's thumb is: where it was dragged to, or where
    /// the sheet is.
    pub fn vertical_scroll_position(&self) -> (position: Pixels)
        ensures
            position == match self@.scrollbar_drag {
                Some(ScrollbarDrag::Vertical { pointer_offset, scroll_position, last_sheet_update })
                    => scroll_position,
                _ => self@.vertical_offset,
            },
    {
        match self.scrollbar_drag {
            Some(ScrollbarDrag::Vertical { scroll_position, .. }) => scroll_position,
            _ => self.vertical_offset,
        }
    }

    /// Moves the vertical scrollbar's thumb, and the sheet if it has not moved for
    /// a while.
    pub fn drag_vertical_scrollbar(
        &mut self,
        position: Pixels,
        now: u64,
        is_fully_loaded: bool,
        max_offset: Pixels,
    )
        ensures
            final(self)@ == old(self)@.after_thumb_move(
                position,
                now,
                is_fully_loaded,
                max_offset,
            ),
    {
        if let Some(ScrollbarDrag::Vertical { pointer_offset, last_sheet_update, .. }) =
            self.scrollbar_drag {
            let pace: u64 = vertical_scroll_drag_update_interval(is_fully_loaded) * 1_000_000;
            let mut moved: u64 = last_sheet_update;
            if now >= last_sheet_update && now - last_sheet_update >= pace {
                self.set_vertical_offset(position, max_offset);
                moved = now;
            }
            self.scrollbar_drag = Some(
                ScrollbarDrag::Vertical {
                    pointer_offset,
                    scroll_position: position,
                    last_sheet_update: moved,
                },
            );
        }
    }

    /// Ends dragging the vertical scrollbar.
    pub fn release_vertical_scrollbar(&mut self, max_offset: Pixels)
        ensures
            final(self)@ == old(self)@.after_thumb_release(max_offset),
    {
        if let Some(ScrollbarDrag::Vertical { scroll_position, .. }) = self.scrollbar_drag {
            self.set_vertical_offset(scroll_position, max_offset);
        }
        self.scrollbar_drag = None;
    }

    /// Ends dragging the horizontal scrollbar.
    pub fn release_horizontal_scrollbar(&mut self)
        ensures
            final(self)@ == (ViewerView { scrollbar_drag: None, ..old(self)@ }),
    {
        self.scrollbar_drag = None;
    }

    /// Opens or closes the menu of metrics.
    pub fn toggle_summary_menu(&mut self)
        ensures
            final(self)@ == (ViewerView {
                show_summary_menu: !old(self)@.show_summary_menu,
                ..old(self)@
            }),
    {
        self.show_summary_menu = !self.show_summary_menu;
    }

    /// Chooses a metric from the menu.
    pub fn choose_metric(&mut self, metric: SummaryMetric)
        ensures
            final(self)@ == (ViewerView {
                summary_metric: metric,
                show_summary_menu: false,
                ..old(self)@
            }),
    {
        self.summary_metric = metric;
        self.show_summary_menu = false;
    }

    /// Takes a click into the name box in. Tells whether that changed anything.
    pub fn name_box_click(&mut self, address: &str, double: bool) -> (changed: bool)
        ensures
            final(self)@ == old(self)@.after_name_box_click(address@, double),
            changed == (double || old(self)@.name_box_input is None
                || old(self)@.name_box_select_all),
    {
        if double {
            self.name_box_input = Some(address.to_owned());
            self.name_box_select_all = true;
            return true;
        }
        if self.name_box_input.is_none() {
            self.name_box_input = Some(address.to_owned());
            self.name_box_select_all = false;
            return true;
        }
        let changed = self.name_box_select_all;
        self.name_box_select_all = false;
        changed
    }

    /// Gives up what stands in the name box once the box has lost the focus.
    pub fn name_box_blurred(&mut self, focused: bool)
        ensures
            final(self)@ == if old(self)@.name_box_input is Some && !focused {
                (ViewerView {
                    name_box_input: None,
                    name_box_select_all: false,
                    ..old(self)@
                })
            } else {
                old(self)@
            },
            final(self)@ == old(self)@.blurred(focused),
    {
        if self.name_box_input.is_some() && !focused {
            self.name_box_input = None;
            self.name_box_select_all = false;
        }
    }

    /// Takes a key that is pressed in the name box in.
    pub fn name_box_key_down(&mut self, key: &str, key_char: Option<&str>) -> (outcome: KeyOutcome)
        requires
            old(self)@.wf(),
        ensures
            (final(self)@, outcome) == old(self)@.after_key(
                key@,
                match key_char {
                    Some(text) => Some(text@),
                    None => None,
                },
            ),
    {
        let input = match &self.name_box_input {
            None => {
                return KeyOutcome { closes: false, changes: false, center: None };
            },
            Some(input) => input.clone(),
        };
        if same_text(key, "escape") {
            self.name_box_input = None;
            return KeyOutcome { closes: true, changes: true, center: None };
        }
        if same_text(key, "enter") {
            self.name_box_input = None;
            let col_count: usize = self.shapes[self.active_sheet].col_count;
            let row_count: usize = self.shapes[self.active_sheet].row_count;
            let center = match parse_name_box_reference(input.as_str(), col_count, row_count) {
                Some(name_ref) => Some(self.apply_name_ref(name_ref)),
                None => None,
            };
            return KeyOutcome { closes: true, changes: true, center };
        }
        if same_text(key, "backspace") {
            let chars = to_chars(input.as_str());
            let length: usize = if self.name_box_select_all || chars.len() == 0 {
                0
            } else {
                chars.len() - 1
            };
            let shorter = text_from(&chars, 0, length);
            proof {
                if self.name_box_select_all || chars@.len() == 0 {
                    assert(shorter@ =~= Seq::<char>::empty());
                } else {
                    assert(shorter@ =~= input@.drop_last());
                }
            }
            self.name_box_input = Some(shorter);
            self.name_box_select_all = false;
            return KeyOutcome { closes: false, changes: true, center: None };
        }
        if let Some(text) = key_char {
            if typed_text(text) {
                let mut buffer = if self.name_box_select_all {
                    String::new()
                } else {
                    input
                };
                buffer.push_str(text);
                self.name_box_input = Some(buffer);
                self.name_box_select_all = false;
                return KeyOutcome { closes: false, changes: true, center: None };
            }
        }
        KeyOutcome { closes: false, changes: false, center: None }
    }
}

/// The width of a column in a layout.
pub open spec fn layout_width(layout: SheetLayoutView, col: usize) -> Pixels {
    if col < layout.column_widths.len() {
        layout.column_widths[col as int]
    } else {
        Pixels { bits: crate::layout::MIN_COLUMN_WIDTH_BITS }
    }
}

/// Whether the selection lies within the sheet, but for a sheet without cells,
/// in which the first cell counts as selected.
pub open spec fn selection_in_sheet(state: ViewerView) -> bool {
    let (rows, cols) = (state.shape().row_count, state.shape().col_count);
    state.selection.range.bottom_row() <= last_of(rows) && state.selection.range.right_col()
        <= last_of(cols) && state.selection.anchor.row <= last_of(rows)
        && state.selection.anchor.col <= last_of(cols)
}

/// Whatever is typed, going to it keeps the selection within the sheet, if the
/// merged regions lie within the sheet.
pub proof fn addresses_select_within_the_sheet(state: ViewerView, input: Seq<char>)
    requires
        state.wf(),
        state.shape().row_count <= usize::MAX,
        state.shape().col_count <= usize::MAX,
        forall|i: int|
            0 <= i < state.shape().merges.len() ==> (#[trigger] state.shape().merges[i]).start.row
                < state.shape().row_count && state.shape().merges[i].start.col
                < state.shape().col_count,
        reference_of(input, state.shape().col_count, state.shape().row_count) is Some,
    ensures
        selection_in_sheet(
            state.gone_to(
                reference_of(input, state.shape().col_count, state.shape().row_count)->0,
            ),
        ),
{
    let name_ref = reference_of(input, state.shape().col_count, state.shape().row_count)->0;
    if let NameRef::Cell(coord) = name_ref {
        lemma_standing_in_sheet(
            state.shape().merges,
            coord,
            state.shape().row_count,
            state.shape().col_count,
        );
    }
}

proof fn lemma_standing_in_sheet(
    regions: Seq<CellRange>,
    coord: CellCoord,
    row_count: nat,
    col_count: nat,
)
    requires
        coord.row < row_count,
        coord.col < col_count,
        forall|i: int|
            0 <= i < regions.len() ==> (#[trigger] regions[i]).start.row < row_count
                && regions[i].start.col < col_count,
    ensures
        standing_for(regions, coord).row < row_count,
        standing_for(regions, coord).col < col_count,
    decreases regions.len(),
{
    if regions.len() > 0 {
        let rest = regions.skip(1);
        assert forall|i: int| 0 <= i < rest.len() implies (#[trigger] rest[i]).start.row < row_count
            && rest[i].start.col < col_count by {
            assert(rest[i] == regions[i + 1]);
        }
        lemma_standing_in_sheet(rest, coord, row_count, col_count);
        assert(regions[0].start.row < row_count);
    }
}

/// While the thumb is dragged the sheet does not move twice within its pace, and
/// once the thumb is let go the sheet is where the thumb was.
pub proof fn dragged_sheets_keep_their_pace(
    state: ViewerView,
    position: Pixels,
    now: u64,
    later_position: Pixels,
    later: u64,
    is_fully_loaded: bool,
    max_offset: Pixels,
)
    requires
        state.scrollbar_drag matches Some(ScrollbarDrag::Vertical {
            pointer_offset,
            scroll_position,
            last_sheet_update,
        }) && now - last_sheet_update >= drag_pace(is_fully_loaded),
    ensures
        ({
            let moved = state.after_thumb_move(position, now, is_fully_loaded, max_offset);
            let dragged = moved.after_thumb_move(
                later_position,
                later,
                is_fully_loaded,
                max_offset,
            );
            &&& moved.vertical_offset == within_offsets(position, max_offset)
            &&& later - now < drag_pace(is_fully_loaded) ==> dragged.vertical_offset
                == moved.vertical_offset
            &&& dragged.after_thumb_release(max_offset).vertical_offset == within_offsets(
                later_position,
                max_offset,
            )
        }),
{
}

/// The name box shows a column that is selected as a whole by its name, and a row
/// by its number.
pub proof fn whole_selections_show_their_names(state: ViewerView, col: usize, row: usize)
    requires
        state.wf(),
        1 < state.shape().row_count <= usize::MAX,
        1 < state.shape().col_count <= usize::MAX,
        col < state.shape().col_count,
        row < state.shape().row_count,
    ensures
        crate::namebox::label_of(
            state.columns_up_to(col, false),
            state.shape().row_count,
            state.shape().col_count,
        ) == crate::references::column_letters(col as nat),
        crate::namebox::label_of(
            state.rows_up_to(row, false),
            state.shape().row_count,
            state.shape().col_count,
        ) == crate::numbers::decimal(row as nat + 1),
{
}

/// A click selects the cell that stands for the one clicked; with the selection extended, all
/// from where the selection began to that cell.
pub proof fn clicks_select_what_stands_there(state: ViewerView, coord: CellCoord)
    ensures
        ({
            let there = standing_for(state.shape().merges, coord);
            let (single, extended) = (state.clicked(coord, false), state.clicked(coord, true));
            &&& single.anchor == there
            &&& forall|row: int, col: int| #[trigger]
                single.range.has_cell(row, col) <==> row == there.row && col == there.col
            &&& extended.anchor == state.selection.anchor
            &&& extended.range.has_cell(there.row as int, there.col as int)
            &&& extended.range.has_cell(
                state.selection.anchor.row as int,
                state.selection.anchor.col as int,
            )
            &&& extended.range.start == state.selection.anchor
            &&& extended.range.end == there
        }),
{
}

/// Whole columns are selected from the first row to the last, whole rows from the first column
/// to the last, and everything in both directions.
pub proof fn whole_selections_reach_the_ends(
    state: ViewerView,
    index: usize,
    extend: bool,
    row: int,
    col: int,
)
    requires
        state.wf(),
        0 < state.shape().row_count <= usize::MAX,
        0 < state.shape().col_count <= usize::MAX,
        0 <= row,
        0 <= col,
    ensures
        ({
            let (rows, cols) = (state.shape().row_count, state.shape().col_count);
            let anchor = state.selection.anchor;
            let (first_col, first_row) = if extend {
                (anchor.col, anchor.row)
            } else {
                (index, index)
            };
            &&& state.columns_up_to(index, extend).range.has_cell(row, col) <==> row < rows && (
            first_col <= col <= index || index <= col <= first_col)
            &&& state.rows_up_to(index, extend).range.has_cell(row, col) <==> col < cols && (
            first_row <= row <= index || index <= row <= first_row)
            &&& state.everything().range.has_cell(row, col) <==> row < rows && col < cols
            &&& state.columns_up_to(index, extend).anchor == (CellCoord { row: 0, col: first_col })
            &&& state.rows_up_to(index, extend).anchor == (CellCoord { row: first_row, col: 0 })
            &&& state.everything().anchor == (CellCoord { row: 0, col: 0 })
        }),
{
}

/// Dragging the edge of a selected column resizes all selected columns of the sheet, and of any
/// other column that column alone; likewise for rows.
pub proof fn selected_lines_are_resized_together(state: ViewerView, line: usize, other: usize)
    requires
        state.wf(),
        state.shape().row_count <= usize::MAX,
        state.shape().col_count <= usize::MAX,
    ensures
        ({
            let range = state.selection.range;
            &&& state.resized_columns(line).contains(other) <==> if range.has_col(line as int) {
                range.has_col(other as int) && other < state.shape().col_count
            } else {
                other == line
            }
            &&& state.resized_rows(line).contains(other) <==> if range.has_row(line as int) {
                range.has_row(other as int) && other < state.shape().row_count
            } else {
                other == line
            }
        }),
{
    let range = state.selection.range;
    assert(seq![line][0] == line);
    lemma_indices_between(
        range.left_col() as int,
        range.right_col() as int,
        state.shape().col_count,
        other,
    );
    lemma_indices_between(
        range.top_row() as int,
        range.bottom_row() as int,
        state.shape().row_count,
        other,
    );
}

proof fn lemma_indices_between(first: int, last: int, count: nat, index: usize)
    requires
        0 <= first <= last,
        count <= usize::MAX,
    ensures
        indices_between(first, last, count).contains(index) <==> first <= index <= last && index
            < count,
{
    let indices = indices_between(first, last, count);
    if first <= index <= last && index < count {
        assert(indices[index - first] == index);
    }
}

/// A scroll offset stays between zero and the greatest one, and is left alone where it does.
pub proof fn offsets_stay_within_the_sheet(offset: Pixels, max_offset: Pixels)
    requires
        !offset.is_nan(),
        (Pixels { bits: 0 }).le(max_offset),
    ensures
        (Pixels { bits: 0 }).le(within_offsets(offset, max_offset)),
        within_offsets(offset, max_offset).le(max_offset),
        (Pixels { bits: 0 }).le(offset) && offset.le(max_offset) ==> within_offsets(
            offset,
            max_offset,
        ) == offset,
        within_offsets(offset, max_offset) == offset || within_offsets(offset, max_offset)
            == max_offset || within_offsets(offset, max_offset) == (Pixels { bits: 0 }),
{
}

/// What is typed in the name box is added at its end, or takes the place of what is selected
/// there; taking one character back then gives what was there before.
pub proof fn typing_adds_to_the_name_box(
    state: ViewerView,
    key: Seq<char>,
    typed: Seq<char>,
    input: Seq<char>,
)
    requires
        state.name_box_input == Some(input),
        key != "escape"@,
        key != "enter"@,
        key != "backspace"@,
        typed.len() > 0,
        forall|i: int|
            0 <= i < typed.len() ==> !(#[trigger] typed[i] <= '\u{1f}') && !('\u{7f}' <= typed[i]
                <= '\u{9f}'),
    ensures
        ({
            let (after, outcome) = state.after_key(key, Some(typed));
            &&& !state.name_box_select_all ==> after.name_box_input == Some(input + typed)
            &&& state.name_box_select_all ==> after.name_box_input == Some(typed)
            &&& !after.name_box_select_all
            &&& outcome.changes && !outcome.closes && outcome.center is None
            &&& after.selection == state.selection
            &&& typed.len() == 1 && !state.name_box_select_all ==> after.after_key(
                "backspace"@,
                None,
            ).0.name_box_input == Some(input)
        }),
{
    reveal_strlit("escape");
    reveal_strlit("enter");
    reveal_strlit("backspace");
    assert("backspace"@.len() == 9 && "escape"@.len() == 6 && "enter"@.len() == 5);
    assert(Seq::<char>::empty() + typed =~= typed);
    if typed.len() == 1 {
        assert((input + typed).drop_last() =~= input);
    }
}

/// The name box closes on escape and on enter. Escape leaves the selection alone; enter goes to
/// the address where there is one, and centers on it. While the box is closed, no key does
/// anything.
pub proof fn enter_goes_to_the_address(
    state: ViewerView,
    key: Seq<char>,
    key_char: Option<Seq<char>>,
)
    ensures
        state.name_box_input is None ==> state.after_key(key, key_char).0 == state
            && !state.after_key(key, key_char).1.changes && !state.after_key(
            key,
            key_char,
        ).1.closes,
        state.name_box_input is Some ==> ({
            let (after, outcome) = state.after_key("escape"@, key_char);
            &&& after.name_box_input is None && outcome.closes && outcome.center is None
            &&& after.selection == state.selection
        }),
        state.name_box_input matches Some(input) ==> ({
            let (after, outcome) = state.after_key("enter"@, key_char);
            &&& after.name_box_input is None && outcome.closes && outcome.changes
            &&& match reference_of(input, state.shape().col_count, state.shape().row_count) {
                None => after.selection == state.selection && outcome.center is None,
                Some(NameRef::Cell(coord)) => after.selection.anchor == standing_for(
                    state.shape().merges,
                    coord,
                ) && outcome.center == Some(coord),
                Some(NameRef::Column(col)) => after.selection == state.columns_up_to(col, false)
                    && outcome.center == Some(CellCoord { row: 0, col }),
                Some(NameRef::Row(row)) => after.selection == state.rows_up_to(row, false)
                    && outcome.center == Some(CellCoord { row, col: 0 }),
            }
        }),
        state.name_box_input matches Some(input) ==> state.after_key(
            "backspace"@,
            key_char,
        ).0.name_box_input == Some(
            if state.name_box_select_all || input.len() == 0 {
                Seq::<char>::empty()
            } else {
                input.take(input.len() - 1)
            },
        ),
{
    reveal_strlit("escape");
    reveal_strlit("enter");
    reveal_strlit("backspace");
    assert("backspace"@.len() == 9 && "escape"@.len() == 6 && "enter"@.len() == 5);
    if state.name_box_input is Some && state.name_box_input->0.len() > 0 {
        let input = state.name_box_input->0;
        assert(input.drop_last() =~= input.take(input.len() - 1));
    }
}

/// A click opens the name box with the address in it; a second one selects all of it, and later
/// ones keep what was typed.
pub proof fn clicks_open_the_name_box(state: ViewerView, address: Seq<char>)
    ensures
        state.after_name_box_click(address, true).name_box_input == Some(address),
        state.after_name_box_click(address, true).name_box_select_all,
        !state.after_name_box_click(address, false).name_box_select_all,
        state.name_box_input is None ==> state.after_name_box_click(address, false).name_box_input
            == Some(address),
        state.name_box_input is Some ==> state.after_name_box_click(address, false).name_box_input
            == state.name_box_input,
        state.after_name_box_click(address, false).selection == state.selection,
{
}

/// Another sheet is shown from its start, with its first cell selected and nothing typed or
/// dragged; the sheets themselves stay.
pub proof fn sheets_are_shown_from_their_start(state: ViewerView, sheet: nat)
    ensures
        ({
            let after = state.on_sheet(sheet);
            &&& after.active_sheet == sheet
            &&& after.shapes == state.shapes
            &&& after.selection.anchor.row == 0 && after.selection.anchor.col == 0
            &&& after.selection.range.bottom_row() == 0 && after.selection.range.right_col() == 0
            &&& after.name_box_input is None && after.selection_drag is None
                && !after.show_summary_menu
            &&& after.vertical_offset == (Pixels { bits: 0 })
            &&& after.summary_metric == state.summary_metric
        }),
{
}

/// A resize begins with each line that is resized and the size that it has then.
pub proof fn resizing_begins_with_the_sizes_there_are(
    indices: Seq<usize>,
    sizes: Seq<Pixels>,
    index: int,
)
    requires
        indices.len() == sizes.len(),
        0 <= index < indices.len(),
    ensures
        paired(indices, sizes).len() == indices.len(),
        paired(indices, sizes)[index].0 == indices[index],
        paired(indices, sizes)[index].1 == sizes[index],
{
}

/// A new selection takes the place of the old one and ends a resize and the summary menu; what
/// is typed, the sheet and its position stay.
pub proof fn selecting_changes_the_selection_only(
    state: ViewerView,
    selection: Selection,
    drag: Option<CellCoord>,
)
    ensures
        ({
            let after = state.with_selection(selection, drag);
            &&& after.selection == selection && after.selection_drag == drag
            &&& after.resize_drag is None && !after.show_summary_menu
            &&& after.active_sheet == state.active_sheet && after.shapes == state.shapes
            &&& after.name_box_input == state.name_box_input && after.vertical_offset
                == state.vertical_offset
        }),
        state.changes_with(state.selection) <==> state.show_summary_menu,
        selection != state.selection ==> state.changes_with(selection),
{
}

/// While its thumb is dragged, a sheet that is loaded as a whole moves at most twenty times a
/// second, and any other at most five times.
pub proof fn loaded_sheets_follow_the_thumb_faster(is_fully_loaded: bool)
    ensures
        drag_pace(is_fully_loaded) * (if is_fully_loaded {
            20int
        } else {
            5int
        }) == 1_000_000_000,
{
}

/// A column has the width that the layout gives it; one that the layout does not have is as
/// narrow as a column can be.
pub proof fn columns_have_the_width_of_the_layout(layout: SheetLayoutView, col: usize)
    ensures
        col < layout.column_widths.len() ==> layout_width(layout, col)
            == layout.column_widths[col as int],
        col >= layout.column_widths.len() ==> layout_width(layout, col).bits
            == crate::layout::MIN_COLUMN_WIDTH_BITS,
{
}

impl ViewerView {
    /// The state after switching to a sheet, where there is such a sheet.
    pub open spec fn switched_to(self, sheet: nat) -> Self {
        if sheet < self.shapes.len() && sheet != self.active_sheet {
            self.on_sheet(sheet)
        } else {
            self
        }
    }

    /// The state after dragging the selection to a cell.
    pub open spec fn dragged_to(self, coord: CellCoord) -> Self {
        match self.selection_drag {
            None => self,
            Some(anchor) => ViewerView {
                selection: selected(anchor, standing_for(self.shape().merges, coord)),
                show_summary_menu: false,
                ..self
            },
        }
    }

    /// The state after the name box may have lost the focus.
    pub open spec fn blurred(self, focused: bool) -> Self {
        if self.name_box_input is Some && !focused {
            ViewerView { name_box_input: None, name_box_select_all: false, ..self }
        } else {
            self
        }
    }
}

/// Switching shows the sheet that was asked for, if there is one; to switch to the sheet in view
/// changes nothing, and so to switch twice is to switch once.
pub proof fn switching_shows_the_sheet(state: ViewerView, sheet: nat)
    requires
        state.wf(),
    ensures
        state.switched_to(sheet).wf(),
        sheet < state.shapes.len() ==> state.switched_to(sheet).active_sheet == sheet,
        sheet >= state.shapes.len() ==> state.switched_to(sheet) == state,
        state.switched_to(state.active_sheet) == state,
        state.switched_to(sheet).switched_to(sheet) == state.switched_to(sheet),
        state.switched_to(sheet).shapes == state.shapes,
        sheet < state.shapes.len() && sheet != state.active_sheet ==> state.switched_to(
            sheet,
        ).selection.anchor == (CellCoord { row: 0, col: 0 }),
{
}

/// A selection that is dragged reaches from where the drag began to the cell that stands for the
/// one below the pointer, wherever it was dragged before; without a drag nothing changes.
pub proof fn drags_select_from_where_they_began(
    state: ViewerView,
    coord: CellCoord,
    other: CellCoord,
)
    ensures
        state.selection_drag is None ==> state.dragged_to(coord) == state,
        state.selection_drag matches Some(anchor) ==> ({
            let after = state.dragged_to(coord);
            let there = standing_for(state.shape().merges, coord);
            &&& after.selection.anchor == anchor
            &&& after.selection.range.has_cell(anchor.row as int, anchor.col as int)
            &&& after.selection.range.has_cell(there.row as int, there.col as int)
            &&& after.selection.range.start == anchor && after.selection.range.end == there
            &&& after.selection_drag == state.selection_drag
            &&& state.dragged_to(other).dragged_to(coord) == after
            &&& !after.show_summary_menu
            &&& after.vertical_offset == state.vertical_offset
        }),
{
}

/// A name box that loses the focus closes and forgets what was typed; the selection stays.
pub proof fn name_boxes_close_without_focus(state: ViewerView)
    ensures
        state.blurred(true) == state,
        state.blurred(false).name_box_input is None,
        state.blurred(false).selection == state.selection,
        state.name_box_input is None ==> state.blurred(false) == state,
        state.name_box_input is Some ==> !state.blurred(false).name_box_select_all,
{
}

/// A key that types nothing, or something with a control character in it, leaves the name box as
/// it is.
pub proof fn control_characters_are_not_typed(
    state: ViewerView,
    key: Seq<char>,
    typed: Seq<char>,
    index: int,
)
    requires
        key != "escape"@,
        key != "enter"@,
        key != "backspace"@,
        0 <= index < typed.len(),
        typed[index] <= '\u{1f}' || '\u{7f}' <= typed[index] <= '\u{9f}',
    ensures
        state.after_key(key, Some(typed)).0 == state,
        !state.after_key(key, Some(typed)).1.changes,
        state.after_key(key, None).0 == state,
        state.after_key(key, Some(Seq::empty())).0 == state,
{
    assert(is_control_char(typed[index]));
}

} // verus!
