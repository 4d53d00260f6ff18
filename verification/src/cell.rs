//! Cells: their content, their style and how they are displayed.

use vstd::prelude::*;

use crate::formats::CellDisplayFormat;

verus! {

/// The colors of a cell's four borders, where it has any.
#[derive(Debug, Clone, Copy, PartialEq, Eq, Structural)]
pub struct CellBorders {
    pub top: Option<u32>,
    pub right: Option<u32>,
    pub bottom: Option<u32>,
    pub left: Option<u32>,
}

/// A cell without borders.
pub open spec fn no_borders() -> CellBorders {
    CellBorders { top: None, right: None, bottom: None, left: None }
}

impl Default for CellBorders {
    fn default() -> (borders: Self)
        ensures
            borders == no_borders(),
    {
        CellBorders { top: None, right: None, bottom: None, left: None }
    }
}

/// A cell's visual style.
#[derive(Debug, Clone, Copy, PartialEq, Eq, Structural)]
pub struct CellStyle {
    pub bold: bool,
    pub background_color: Option<u32>,
    pub text_color: Option<u32>,
    pub wrap_text: bool,
    pub borders: CellBorders,
}

/// The style of a cell for which none is given.
pub open spec fn plain_style() -> CellStyle {
    CellStyle {
        bold: false,
        background_color: None,
        text_color: None,
        wrap_text: false,
        borders: no_borders(),
    }
}

impl Default for CellStyle {
    fn default() -> (style: Self)
        ensures
            style == plain_style(),
    {
        CellStyle {
            bold: false,
            background_color: None,
            text_color: None,
            wrap_text: false,
            borders: CellBorders { top: None, right: None, bottom: None, left: None },
        }
    }
}

/// What kind of value a cell holds.
#[derive(Debug, Clone, Copy, PartialEq, Eq, Structural)]
pub enum CellRawValue {
    Empty,
    /// A number, by the bit pattern of its double-precision representation.
    Number { bits: u64 },
    Bool(bool),
    DateTime,
    Text,
}

impl Default for CellRawValue {
    fn default() -> (value: Self)
        ensures
            value == CellRawValue::Empty,
    {
        CellRawValue::Empty
    }
}

/// One cell of a sheet.
#[derive(Debug)]
pub struct CellData {
    /// The text that is displayed.
    pub value: String,
    /// The formula, where the cell has one.
    pub formula: Option<String>,
    pub raw_value: CellRawValue,
    pub style: CellStyle,
    pub display_format: Option<CellDisplayFormat>,
    /// Whether the file held no value for the cell's formula.
    pub formula_value_was_uncached: bool,
}

/// The mathematical content of a cell.
#[verifier::ext_equal]
pub struct CellView {
    pub value: Seq<char>,
    pub formula: Option<Seq<char>>,
    pub raw_value: CellRawValue,
    pub style: CellStyle,
    pub display_format: Option<CellDisplayFormat>,
    pub formula_value_was_uncached: bool,
}

/// The content of an optional text.
pub open spec fn text_view(text: Option<String>) -> Option<Seq<char>> {
    match text {
        Some(text) => Some(text@),
        None => None,
    }
}

/// A cell that holds nothing.
pub open spec fn empty_cell() -> CellView {
    CellView {
        value: Seq::empty(),
        formula: None,
        raw_value: CellRawValue::Empty,
        style: plain_style(),
        display_format: None,
        formula_value_was_uncached: false,
    }
}

impl View for CellData {
    type V = CellView;

    open spec fn view(&self) -> CellView {
        CellView {
            value: self.value@,
            formula: text_view(self.formula),
            raw_value: self.raw_value,
            style: self.style,
            display_format: self.display_format,
            formula_value_was_uncached: self.formula_value_was_uncached,
        }
    }
}

/// The content of a row of cells.
pub open spec fn cells_view(cells: Seq<CellData>) -> Seq<CellView> {
    cells.map_values(|cell: CellData| cell@)
}

/// The content of rows of cells.
pub open spec fn cell_rows_view(rows: Seq<Vec<CellData>>) -> Seq<Seq<CellView>> {
    rows.map_values(|row: Vec<CellData>| cells_view(row@))
}

impl Default for CellData {
    fn default() -> (cell: Self)
        ensures
            cell@ == empty_cell(),
    {
        CellData {
            value: String::new(),
            formula: None,
            raw_value: CellRawValue::Empty,
            style: CellStyle::default(),
            display_format: None,
            formula_value_was_uncached: false,
        }
    }
}

/// A copy of an optional text.
pub fn copy_text(text: &Option<String>) -> (copy: Option<String>)
    ensures
        text_view(copy) == text_view(*text),
{
    match text {
        Some(text) => Some(text.clone()),
        None => None,
    }
}

impl Clone for CellData {
    fn clone(&self) -> (copy: Self)
        ensures
            copy@ == self@,
    {
        CellData {
            value: self.value.clone(),
            formula: copy_text(&self.formula),
            raw_value: self.raw_value,
            style: self.style,
            display_format: self.display_format,
            formula_value_was_uncached: self.formula_value_was_uncached,
        }
    }
}

impl CellView {
    /// The cell's formula, unless it is absent or empty.
    pub open spec fn active_formula(self) -> Option<Seq<char>> {
        match self.formula {
            Some(formula) => if formula.len() > 0 {
                Some(formula)
            } else {
                None
            },
            None => None,
        }
    }

    /// Whether the cell has a formula but displays nothing.
    pub open spec fn lacks_formula_value(self) -> bool {
        self.value.len() == 0 && self.active_formula() is Some
    }
}

impl CellData {
    /// The cell's formula, unless it is absent or empty.
    pub fn active_formula(&self) -> (formula: Option<&String>)
        ensures
            match formula {
                Some(formula) => self@.active_formula() == Some(formula@),
                None => self@.active_formula() is None,
            },
    {
        match &self.formula {
            Some(formula) => {
                if formula.as_str().is_empty() {
                    None
                } else {
                    Some(formula)
                }
            },
            None => None,
        }
    }

    /// Whether the cell displays no text.
    pub fn is_blank(&self) -> (blank: bool)
        ensures
            blank == (self@.value.len() == 0),
    {
        self.value.as_str().is_empty()
    }

    /// Whether the cell has a formula but displays nothing.
    pub fn lacks_formula_value(&self) -> (lacks: bool)
        ensures
            lacks == self@.lacks_formula_value(),
    {
        self.is_blank() && self.active_formula().is_some()
    }
}

/// A cell has a formula where one is written that is not empty, and lacks its value where it
/// then displays nothing.
pub proof fn empty_formulas_are_none(cell: CellView)
    ensures
        cell.active_formula() is Some <==> cell.formula is Some && cell.formula !== Some(
            Seq::<char>::empty(),
        ),
        cell.active_formula() is Some ==> cell.active_formula() == cell.formula,
        cell.lacks_formula_value() <==> cell.value =~= Seq::<char>::empty() && cell.formula is Some
            && cell.formula !== Some(Seq::<char>::empty()),
{
    if cell.formula is Some && cell.formula->0.len() == 0 {
        assert(cell.formula->0 =~= Seq::<char>::empty());
    }
}

} // verus!
