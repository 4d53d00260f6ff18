//! How cells look: texts, colors and highlights.

use vstd::prelude::*;

use crate::cell::{CellData, CellView};
use crate::formulas::{formula_with_equals, with_equals};
use crate::layout::{RowCell, RowCellView};
use crate::merges::{merge_kind_of, MergeKind};
use crate::namebox::Selection;
use crate::pixels::Pixels;
use crate::range::{CellCoord, SelectionEdgeSides};
use crate::sheet::{SheetData, SheetView};
use crate::text::contains_char;

verus! {

/// The color of grid lines.
pub const GRID_COLOR: u32 = 0xd9_d9_d9;

/// The background of headers.
pub const HEADER_BG: u32 = 0xf8_f9_fa;

/// The background of cells that give none.
pub const CELL_BG: u32 = 0xff_ff_ff;

/// The text color of cells that give none.
pub const CELL_TEXT: u32 = 0x20_21_24;

/// The text color of a formula in place of its value.
pub const FORMULA_FALLBACK_TEXT: u32 = 0x5f_63_68;

/// The color of the selection's outline.
pub const SELECTION_BORDER: u32 = 0x1a_73_e8;

/// The color of grid lines inside of the selection.
pub const SELECTION_INNER_BORDER: u32 = 0xa8_c7_fa;

/// One of the three channels of a color: blue is 0, green 1 and red 2.
pub open spec fn channel(color: u32, index: nat) -> int {
    if index == 0 {
        color as int % 256
    } else if index == 1 {
        (color as int / 256) % 256
    } else {
        (color as int / 65536) % 256
    }
}

/// A channel of a background with the selection's color blended over it: 33 parts
/// in 256 of that color.
pub open spec fn blended(base: u32, index: nat) -> int {
    (channel(base, index) * 223 + channel(SELECTION_BORDER, index) * 33) / 256
}

/// A background with the selection's color blended over it.
pub open spec fn tinted(base: u32) -> int {
    blended(base, 2) * 65536 + blended(base, 1) * 256 + blended(base, 0)
}

/// Blends the selection's color over a background, so that the background still
/// shows through.
pub fn selection_tint(base: u32) -> (color: u32)
    ensures
        color == tinted(base),
{
    let red: u32 = blend((base / 65536) % 256, (SELECTION_BORDER / 65536) % 256);
    let green: u32 = blend((base / 256) % 256, (SELECTION_BORDER / 256) % 256);
    let blue: u32 = blend(base % 256, SELECTION_BORDER % 256);
    red * 65536 + green * 256 + blue
}

/// Blends one channel over another.
fn blend(base: u32, over: u32) -> (channel: u32)
    requires
        base < 256,
        over < 256,
    ensures
        channel == (base as int * 223 + over * 33) / 256,
        channel < 256,
{
    (base * 223 + over * 33) / 256
}

/// A tinted background lies between the background and the selection's color in
/// each channel, and a brighter background stays at least as bright.
pub proof fn tints_keep_backgrounds_apart(base: u32, other: u32, index: nat)
    requires
        index < 3,
    ensures
        ({
            let (low, high) = if channel(base, index) <= channel(SELECTION_BORDER, index) {
                (channel(base, index), channel(SELECTION_BORDER, index))
            } else {
                (channel(SELECTION_BORDER, index), channel(base, index))
            };
            low <= blended(base, index) <= high
        }),
        channel(base, index) <= channel(other, index) ==> blended(base, index) <= blended(
            other,
            index,
        ),
        channel(base, index) + 2 <= channel(other, index) ==> blended(base, index) < blended(
            other,
            index,
        ),
{
}

/// The text that a cell is displayed by, and whether it is the formula in place
/// of a value.
pub open spec fn displayed_text(cell: CellView) -> (Seq<char>, bool) {
    match cell.active_formula() {
        Some(formula) => if cell.value.len() == 0 {
            (with_equals(formula), true)
        } else {
            (cell.value, false)
        },
        None => (cell.value, false),
    }
}

/// The text that a cell is displayed by, and whether it is the formula in place
/// of a value.
pub fn cell_display_text(cell: &CellData) -> (text: (String, bool))
    ensures
        (text.0@, text.1) == displayed_text(cell@),
{
    match cell.active_formula() {
        Some(formula) => if cell.is_blank() {
            (formula_with_equals(formula.as_str()), true)
        } else {
            (cell.value.clone(), false)
        },
        None => (cell.value.clone(), false),
    }
}

/// A cell of a row that is about to be rendered, given the width of its text.
pub open spec fn rendered_cell(
    sheet: SheetView,
    row: usize,
    col: usize,
    text_width: Pixels,
) -> RowCellView {
    let cell = sheet.cell(row as int, col as int);
    RowCellView {
        data: cell,
        text: displayed_text(cell).0,
        text_width,
        formula_fallback: displayed_text(cell).1,
        merge: merge_kind_of(sheet.merges, CellCoord { row, col }),
    }
}

/// Prepares a cell for rendering, given the width of its text.
pub fn build_row_cell(sheet: &SheetData, row: usize, col: usize, text_width: Pixels) -> (cell:
    RowCell)
    ensures
        cell@ == rendered_cell(sheet@, row, col, text_width),
{
    let data = sheet.cell_data(row, col);
    let (text, formula_fallback) = cell_display_text(&data);
    let merge = sheet.merges().merge_kind(row, col);
    RowCell { data, text, text_width, formula_fallback, merge }
}

/// Whether the width of a cell's text has to be measured; else it counts as
/// nothing.
pub fn needs_measuring(cell: &CellData) -> (needs: bool)
    ensures
        needs == ({
            let (text, fallback) = displayed_text(cell@);
            text.len() > 0 && !fallback && !cell@.style.wrap_text
        }),
        needs == is_measured(cell@),
{
    let (text, fallback) = cell_display_text(cell);
    !text.as_str().is_empty() && !fallback && !cell.style.wrap_text
}

/// How a cell takes part in the selection.
#[derive(Debug, Clone, Copy, PartialEq, Eq, Structural)]
pub struct CellRenderState {
    pub coord: CellCoord,
    pub selected: bool,
    pub selection_edges: SelectionEdgeSides,
    /// Whether the selection began with this cell.
    pub active: bool,
}

/// How a cell takes part in a selection.
pub fn cell_render_state(selection: Selection, coord: CellCoord) -> (state: CellRenderState)
    ensures
        state.coord == coord,
        state.selected == selection.range.has_cell(coord.row as int, coord.col as int),
        state.active == (selection.anchor == coord),
        state.selection_edges == selection.range.outline_sides(coord.row as int, coord.col as int),
        state.selection_edges.has_top() == (state.selected && coord.row
            == selection.range.top_row()),
        state.selection_edges.has_right() == (state.selected && coord.col
            == selection.range.right_col()),
        state.selection_edges.has_bottom() == (state.selected && coord.row
            == selection.range.bottom_row()),
        state.selection_edges.has_left() == (state.selected && coord.col
            == selection.range.left_col()),
{
    CellRenderState {
        coord,
        selected: selection.contains(coord.row, coord.col),
        selection_edges: selection.range.edge_sides(coord.row, coord.col),
        active: selection.anchor == coord,
    }
}

/// How a cell is painted.
#[derive(Debug, Clone, Copy, PartialEq, Eq, Structural)]
pub struct CellAppearance {
    pub text_color: u32,
    pub background: u32,
    pub border_color: u32,
    /// Whether the text is set in lines from the top.
    pub multiline: bool,
    pub bold: bool,
    /// Whether the cell is painted as part of a merged region instead.
    pub merged: bool,
    /// Whether the selection's outline is drawn in the cell.
    pub highlighted: bool,
}

/// A color or its default.
pub open spec fn or_default(color: Option<u32>, default: u32) -> u32 {
    match color {
        Some(color) => color,
        None => default,
    }
}

/// How a cell is painted.
pub open spec fn appearance_of(cell: RowCellView, selected: bool, active: bool) -> CellAppearance {
    let base = or_default(cell.data.style.background_color, CELL_BG);
    CellAppearance {
        text_color: if cell.formula_fallback {
            FORMULA_FALLBACK_TEXT
        } else {
            or_default(cell.data.style.text_color, CELL_TEXT)
        },
        background: if selected && !active {
            tinted(base) as u32
        } else {
            base
        },
        border_color: if selected {
            SELECTION_INNER_BORDER
        } else {
            GRID_COLOR
        },
        multiline: cell.data.style.wrap_text || cell.text.contains('\n'),
        bold: cell.data.style.bold,
        merged: cell.merge != MergeKind::Unmerged,
        highlighted: active || selected,
    }
}

/// How a cell is painted.
pub fn cell_appearance(cell: &RowCell, selected: bool, active: bool) -> (appearance: CellAppearance)
    ensures
        appearance == appearance_of(cell@, selected, active),
{
    let base: u32 = match cell.data.style.background_color {
        Some(color) => color,
        None => CELL_BG,
    };
    let text_color: u32 = if cell.formula_fallback {
        FORMULA_FALLBACK_TEXT
    } else {
        match cell.data.style.text_color {
            Some(color) => color,
            None => CELL_TEXT,
        }
    };
    CellAppearance {
        text_color,
        background: if selected && !active {
            selection_tint(base)
        } else {
            base
        },
        border_color: if selected {
            SELECTION_INNER_BORDER
        } else {
            GRID_COLOR
        },
        multiline: cell.data.style.wrap_text || contains_char(cell.text.as_str(), '\n'),
        bold: cell.data.style.bold,
        merged: cell.merge != MergeKind::Unmerged,
        highlighted: active || selected,
    }
}

/// The background of a row's or column's header.
pub fn header_background(selected: bool) -> (color: u32)
    ensures
        color == if selected {
            tinted(HEADER_BG)
        } else {
            HEADER_BG as int
        },
{
    if selected {
        selection_tint(HEADER_BG)
    } else {
        HEADER_BG
    }
}

proof fn lemma_channels(red: int, green: int, blue: int)
    requires
        0 <= red <= 255,
        0 <= green <= 255,
        0 <= blue <= 255,
    ensures
        ({
            let color = red * 65536 + green * 256 + blue;
            &&& 0 <= color <= 0xff_ff_ff
            &&& color % 256 == blue
            &&& color / 256 == red * 256 + green
            &&& (red * 256 + green) % 256 == green
            &&& color / 65536 == red
            &&& red % 256 == red
        }),
{
}

/// A color is made of its three channels, and a tinted one of the blended ones.
pub proof fn tints_blend_each_channel(base: u32, index: nat)
    requires
        base <= 0xff_ff_ff,
        index < 3,
    ensures
        0 <= channel(base, index) <= 255,
        base == channel(base, 2) * 65536 + channel(base, 1) * 256 + channel(base, 0),
        0 <= tinted(base) <= 0xff_ff_ff,
        channel(tinted(base) as u32, index) == blended(base, index),
        256 * blended(base, index) <= 223 * channel(base, index) + 33 * channel(
            SELECTION_BORDER,
            index,
        ) < 256 * blended(base, index) + 256,
{
    lemma_blended(base, 0);
    lemma_blended(base, 1);
    lemma_blended(base, 2);
    lemma_channels(blended(base, 2), blended(base, 1), blended(base, 0));
}

proof fn lemma_blended(base: u32, index: nat)
    requires
        index < 3,
    ensures
        0 <= channel(base, index) <= 255,
        0 <= blended(base, index) <= 255,
        256 * blended(base, index) <= 223 * channel(base, index) + 33 * channel(
            SELECTION_BORDER,
            index,
        ) < 256 * blended(base, index) + 256,
{
    let (under, over) = (channel(base, index), channel(SELECTION_BORDER, index));
    assert(0 <= under <= 255 && 0 <= over <= 255);
}

/// A cell displays its value; only where it displays nothing and has a formula, that formula is
/// shown behind an equals sign in its place.
pub proof fn formulas_are_shown_in_place_of_missing_values(cell: CellView)
    ensures
        cell.value != Seq::<char>::empty() ==> displayed_text(cell) == (cell.value, false),
        cell.formula is None ==> displayed_text(cell) == (cell.value, false),
        cell.formula == Some(Seq::<char>::empty()) ==> displayed_text(cell) == (cell.value, false),
        cell.value == Seq::<char>::empty() && cell.formula is Some && cell.formula->0
            != Seq::<char>::empty() ==> displayed_text(cell).1 && displayed_text(cell).0.len() > 0
            && displayed_text(cell).0[0] == '=' && (displayed_text(cell).0 == cell.formula->0
            || displayed_text(cell).0.skip(1) == cell.formula->0),
{
    if cell.value.len() == 0 {
        assert(cell.value =~= Seq::<char>::empty());
    }
    if cell.formula is Some {
        if cell.formula->0.len() == 0 {
            assert(cell.formula->0 =~= Seq::<char>::empty());
        }
        assert((seq!['='] + cell.formula->0).skip(1) =~= cell.formula->0);
    }
}

/// A cell is shown in its own colors where it has some; only selected cells other than the
/// active one are tinted, and only a formula in place of a value has a text color of its own.
pub proof fn cells_are_shown_in_their_own_colors(cell: RowCellView, selected: bool, active: bool)
    ensures
        ({
            let shown = appearance_of(cell, selected, active);
            let style = cell.data.style;
            &&& cell.formula_fallback ==> shown.text_color == FORMULA_FALLBACK_TEXT
            &&& !cell.formula_fallback && style.text_color is Some ==> shown.text_color
                == style.text_color->0
            &&& !cell.formula_fallback && style.text_color is None ==> shown.text_color == CELL_TEXT
            &&& !selected || active ==> shown.background == match style.background_color {
                Some(color) => color,
                None => CELL_BG,
            }
            &&& selected && !active && style.background_color is Some ==> shown.background
                == tinted(style.background_color->0) as u32
            &&& selected && !active && style.background_color is None ==> shown.background
                == tinted(CELL_BG) as u32
            &&& shown.highlighted <==> active || selected
            &&& shown.border_color == SELECTION_INNER_BORDER <==> selected
            &&& !selected ==> shown.border_color == GRID_COLOR
            &&& shown.bold == style.bold
            &&& shown.merged <==> cell.merge == MergeKind::Anchor || cell.merge
                == MergeKind::Covered
            &&& shown.multiline <==> style.wrap_text || exists|i: int|
                0 <= i < cell.text.len() && #[trigger] cell.text[i] == '\n'
        }),
{
}

/// Whether the width of a cell's text is measured.
pub open spec fn is_measured(cell: CellView) -> bool {
    let (text, fallback) = displayed_text(cell);
    text.len() > 0 && !fallback && !cell.style.wrap_text
}

/// A cell is measured exactly where it has a value that is not wrapped: neither a formula in
/// place of a value nor an empty cell is.
pub proof fn only_values_on_one_line_are_measured(cell: CellView)
    ensures
        is_measured(cell) <==> cell.value != Seq::<char>::empty() && !cell.style.wrap_text,
{
    if cell.value.len() == 0 {
        assert(cell.value =~= Seq::<char>::empty());
    }
}

} // verus!
