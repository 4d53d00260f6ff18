//! Formulas: what the formula engine is told, which cells it has to evaluate and
//! what becomes of the values that it returns.

use vstd::prelude::*;

use crate::cell::{
    cell_rows_view, cells_view, CellData, CellRawValue, CellView,
};
use crate::display::{
    bool_text, display_text, layout_of, number_request_of, raw_value_of, NumberRequest,
    SheetNumber, WrittenNumber, WrittenNumberView,
};
use crate::formats::{
    number_display, percentages_end_in_a_percent_sign, CellDisplayFormat, NumberLayout,
};
use crate::grid::SheetValueView;
use crate::numbers::{
    decimal, decimal_text_reads_back, parsed_number, push_decimal, signed_decimal,
    signed_decimal_text,
};
use crate::sheet::{SheetData, SheetView};
use crate::text::to_chars;
use crate::workbook::sheets_view;

verus! {

/// A cell value that is given to the engine.
#[derive(Debug)]
pub enum FormulaLiteral {
    Text(String),
    /// A number, by its bit pattern.
    Number(u64),
    Boolean(bool),
}

/// The mathematical content of a [`FormulaLiteral`].
#[verifier::ext_equal]
pub enum FormulaLiteralView {
    Text(Seq<char>),
    Number(u64),
    Boolean(bool),
}

impl View for FormulaLiteral {
    type V = FormulaLiteralView;

    open spec fn view(&self) -> FormulaLiteralView {
        match self {
            FormulaLiteral::Text(text) => FormulaLiteralView::Text(text@),
            FormulaLiteral::Number(bits) => FormulaLiteralView::Number(*bits),
            FormulaLiteral::Boolean(value) => FormulaLiteralView::Boolean(*value),
        }
    }
}

/// One thing that the engine is told. Rows and columns are counted from one.
#[derive(Debug)]
pub enum EngineStep {
    AddSheet(String),
    SetFormula { sheet: String, row: u32, col: u32, formula: String },
    SetValue { sheet: String, row: u32, col: u32, value: FormulaLiteral },
}

/// The mathematical content of an [`EngineStep`].
#[verifier::ext_equal]
pub enum EngineStepView {
    AddSheet(Seq<char>),
    SetFormula { sheet: Seq<char>, row: u32, col: u32, formula: Seq<char> },
    SetValue { sheet: Seq<char>, row: u32, col: u32, value: FormulaLiteralView },
}

impl View for EngineStep {
    type V = EngineStepView;

    open spec fn view(&self) -> EngineStepView {
        match self {
            EngineStep::AddSheet(name) => EngineStepView::AddSheet(name@),
            EngineStep::SetFormula { sheet, row, col, formula } => EngineStepView::SetFormula {
                sheet: sheet@,
                row: *row,
                col: *col,
                formula: formula@,
            },
            EngineStep::SetValue { sheet, row, col, value } => EngineStepView::SetValue {
                sheet: sheet@,
                row: *row,
                col: *col,
                value: value@,
            },
        }
    }
}

/// Which formulas the engine is told; of the other cells it is told the values.
#[derive(Debug, Clone, Copy, PartialEq, Eq, Structural)]
pub enum FormulaWorkbookMode {
    MissingOnly,
    AllFormulas,
}

/// What the engine is told, up to the first coordinate that it cannot take.
pub struct FormulaPlan {
    pub steps: Vec<EngineStep>,
    /// The coordinate, counted from zero, that ended the plan.
    pub too_large: Option<usize>,
}

/// The mathematical content of a [`FormulaPlan`].
#[verifier::ext_equal]
pub struct FormulaPlanView {
    pub steps: Seq<EngineStepView>,
    pub too_large: Option<usize>,
}

impl View for FormulaPlan {
    type V = FormulaPlanView;

    open spec fn view(&self) -> FormulaPlanView {
        FormulaPlanView { steps: steps_view(self.steps@), too_large: self.too_large }
    }
}

/// The content of a list of steps.
pub open spec fn steps_view(steps: Seq<EngineStep>) -> Seq<EngineStepView> {
    steps.map_values(|step: EngineStep| step@)
}

/// The engine's coordinate for an index counted from zero, where it fits.
pub open spec fn engine_coord(index: int) -> Option<u32> {
    if index + 1 <= u32::MAX {
        Some((index + 1) as u32)
    } else {
        None
    }
}

/// The engine's coordinates of a cell, or the index that does not fit.
pub open spec fn engine_position(row: int, col: int) -> Result<(u32, u32), usize> {
    match (engine_coord(row), engine_coord(col)) {
        (None, _) => Err(row as usize),
        (_, None) => Err(col as usize),
        (Some(row), Some(col)) => Ok((row, col)),
    }
}

/// The engine's coordinate for an index, or the index where it does not fit.
pub fn coord(index: usize) -> (coord: Result<u32, usize>)
    requires
        index < usize::MAX,
    ensures
        match coord {
            Ok(coord) => engine_coord(index as int) == Some(coord),
            Err(large) => large == index && engine_coord(index as int) is None,
        },
{
    match coord_u32(index) {
        Some(coord) => Ok(coord),
        None => Err(index),
    }
}

/// The engine's coordinate for an index, where it fits.
pub fn coord_u32(index: usize) -> (coord: Option<u32>)
    requires
        index < usize::MAX,
    ensures
        coord == engine_coord(index as int),
{
    if index + 1 <= u32::MAX as usize {
        Some((index + 1) as u32)
    } else {
        None
    }
}

/// What is said of a coordinate that the engine cannot take.
pub open spec fn too_large_message_spec(index: nat) -> Seq<char> {
    "cell coordinate "@ + decimal(index) + " is too large"@
}

/// What is said of a coordinate that the engine cannot take.
pub fn too_large_message(index: usize) -> (message: String)
    ensures
        message@ == too_large_message_spec(index as nat),
{
    let mut message = "cell coordinate ".to_owned();
    push_decimal(&mut message, index as u64);
    message.push_str(" is too large");
    message
}

/// A formula with a leading equals sign.
pub open spec fn with_equals(formula: Seq<char>) -> Seq<char> {
    if formula.len() > 0 && formula[0] == '=' {
        formula
    } else {
        seq!['='] + formula
    }
}

/// Gives a formula a leading equals sign where it has none.
pub fn formula_with_equals(formula: &str) -> (text: String)
    ensures
        text@ == with_equals(formula@),
{
    let chars = to_chars(formula);
    if chars.len() > 0 && chars[0] == '=' {
        return formula.to_owned();
    }
    let mut text = String::new();
    text.push('=');
    text.push_str(formula);
    assert(text@ =~= seq!['='] + formula@);
    text
}

/// The value that the engine is told of a cell.
pub open spec fn literal_of(cell: CellView) -> Option<FormulaLiteralView> {
    match cell.raw_value {
        CellRawValue::Empty => if cell.value.len() > 0 {
            Some(FormulaLiteralView::Text(cell.value))
        } else {
            None
        },
        CellRawValue::Number { bits } => Some(FormulaLiteralView::Number(bits)),
        CellRawValue::Bool(value) => Some(FormulaLiteralView::Boolean(value)),
        CellRawValue::Text => Some(FormulaLiteralView::Text(cell.value)),
        CellRawValue::DateTime => Some(FormulaLiteralView::Text(cell.value)),
    }
}

/// The value that the engine is told of a cell.
pub fn cell_value_to_formula_value(cell: &CellData) -> (literal: Option<FormulaLiteral>)
    ensures
        match literal {
            Some(literal) => literal_of(cell@) == Some(literal@),
            None => literal_of(cell@) is None,
        },
{
    match cell.raw_value {
        CellRawValue::Empty => if cell.is_blank() {
            None
        } else {
            Some(FormulaLiteral::Text(cell.value.clone()))
        },
        CellRawValue::Number { bits } => Some(FormulaLiteral::Number(bits)),
        CellRawValue::Bool(value) => Some(FormulaLiteral::Boolean(value)),
        CellRawValue::Text => Some(FormulaLiteral::Text(cell.value.clone())),
        CellRawValue::DateTime => Some(FormulaLiteral::Text(cell.value.clone())),
    }
}

/// What the engine is told of a cell, or the index that does not fit.
pub open spec fn cell_step(
    sheet: SheetView,
    row: int,
    col: int,
    mode: FormulaWorkbookMode,
) -> Result<Option<EngineStepView>, usize> {
    let cell = sheet.cell(row, col);
    let formula = if mode == FormulaWorkbookMode::AllFormulas || cell.value.len() == 0 {
        cell.active_formula()
    } else {
        None
    };
    match (formula, literal_of(cell)) {
        (Some(formula), _) => match engine_position(row, col) {
            Ok((row, col)) => Ok(
                Some(
                    EngineStepView::SetFormula {
                        sheet: sheet.name,
                        row,
                        col,
                        formula: with_equals(formula),
                    },
                ),
            ),
            Err(index) => Err(index),
        },
        (None, Some(value)) => match engine_position(row, col) {
            Ok((row, col)) => Ok(
                Some(EngineStepView::SetValue { sheet: sheet.name, row, col, value }),
            ),
            Err(index) => Err(index),
        },
        (None, None) => Ok(None),
    }
}

impl FormulaPlanView {
    /// The plan with one more cell.
    pub open spec fn after_cell(
        self,
        sheet: SheetView,
        row: int,
        col: int,
        mode: FormulaWorkbookMode,
    ) -> Self {
        if self.too_large is Some {
            self
        } else {
            match cell_step(sheet, row, col, mode) {
                Err(index) => FormulaPlanView { too_large: Some(index), ..self },
                Ok(None) => self,
                Ok(Some(step)) => FormulaPlanView { steps: self.steps.push(step), ..self },
            }
        }
    }

    /// The plan with the first cells of a row.
    pub open spec fn after_cells(
        self,
        sheet: SheetView,
        row: int,
        cols: nat,
        mode: FormulaWorkbookMode,
    ) -> Self
        decreases cols,
    {
        if cols == 0 {
            self
        } else {
            self.after_cells(sheet, row, (cols - 1) as nat, mode).after_cell(
                sheet,
                row,
                cols - 1,
                mode,
            )
        }
    }

    /// The plan with the first rows of a sheet.
    pub open spec fn after_rows(
        self,
        sheet: SheetView,
        rows: nat,
        mode: FormulaWorkbookMode,
    ) -> Self
        decreases rows,
    {
        if rows == 0 {
            self
        } else {
            self.after_rows(sheet, (rows - 1) as nat, mode).after_cells(
                sheet,
                rows - 1,
                sheet.col_count,
                mode,
            )
        }
    }

    /// The plan with the cells of sheets.
    pub open spec fn after_sheets(self, sheets: Seq<SheetView>, mode: FormulaWorkbookMode) -> Self
        decreases sheets.len(),
    {
        if sheets.len() == 0 {
            self
        } else {
            self.after_sheets(sheets.drop_last(), mode).after_rows(
                sheets.last(),
                sheets.last().row_count,
                mode,
            )
        }
    }
}

/// The plan for a workbook: first all sheets are added, then their cells follow
/// sheet by sheet and row by row.
pub open spec fn workbook_plan(sheets: Seq<SheetView>, mode: FormulaWorkbookMode) -> FormulaPlanView {
    (FormulaPlanView {
        steps: sheets.map_values(|sheet: SheetView| EngineStepView::AddSheet(sheet.name)),
        too_large: None,
    }).after_sheets(sheets, mode)
}

impl FormulaPlan {
    fn push(&mut self, step: EngineStep)
        ensures
            final(self)@ == (FormulaPlanView {
                steps: old(self)@.steps.push(step@),
                ..old(self)@
            }),
    {
        self.steps.push(step);
        assert(steps_view(self.steps@) =~= old(self)@.steps.push(step@));
    }

    /// Adds one cell to the plan.
    fn add_cell(&mut self, sheet: &SheetData, row: usize, col: usize, mode: FormulaWorkbookMode)
        requires
            row < usize::MAX,
            col < usize::MAX,
        ensures
            final(self)@ == old(self)@.after_cell(sheet@, row as int, col as int, mode),
    {
        if self.too_large.is_some() {
            return;
        }
        let cell = sheet.cell_data(row, col);
        let all = match mode {
            FormulaWorkbookMode::AllFormulas => true,
            FormulaWorkbookMode::MissingOnly => false,
        };
        let formula = if all || cell.is_blank() {
            cell.active_formula()
        } else {
            None
        };
        let literal = cell_value_to_formula_value(&cell);
        if formula.is_none() && literal.is_none() {
            return;
        }
        let row: u32 = match coord(row) {
            Ok(row) => row,
            Err(index) => {
                self.too_large = Some(index);
                return;
            },
        };
        let col: u32 = match coord(col) {
            Ok(col) => col,
            Err(index) => {
                self.too_large = Some(index);
                return;
            },
        };
        match (formula, literal) {
            (Some(formula), _) => {
                let formula = formula_with_equals(formula.as_str());
                self.push(EngineStep::SetFormula { sheet: sheet.name.clone(), row, col, formula });
            },
            (None, Some(value)) => {
                self.push(EngineStep::SetValue { sheet: sheet.name.clone(), row, col, value });
            },
            (None, None) => {},
        }
    }

    /// Adds the cells of a sheet to the plan.
    fn add_sheet_cells(&mut self, sheet: &SheetData, mode: FormulaWorkbookMode)
        ensures
            final(self)@ == old(self)@.after_rows(sheet@, sheet@.row_count, mode),
    {
        let ghost start = self@;
        let mut row: usize = 0;
        while row < sheet.row_count
            invariant
                row <= sheet.row_count,
                self@ == start.after_rows(sheet@, row as nat, mode),
            decreases sheet.row_count - row,
        {
            let ghost before = self@;
            let mut col: usize = 0;
            while col < sheet.col_count
                invariant
                    row < sheet.row_count,
                    col <= sheet.col_count,
                    self@ == before.after_cells(sheet@, row as int, col as nat, mode),
                decreases sheet.col_count - col,
            {
                self.add_cell(sheet, row, col, mode);
                col += 1;
            }
            row += 1;
        }
    }
}

/// Plans what the engine is told of a workbook.
pub fn build_formula_workbook(sheets: &Vec<SheetData>, mode: FormulaWorkbookMode) -> (plan:
    FormulaPlan)
    ensures
        plan@ == workbook_plan(sheets_view(sheets@), mode),
{
    let ghost views = sheets_view(sheets@);
    let ghost added = views.map_values(
        |sheet: SheetView| EngineStepView::AddSheet(sheet.name),
    );
    let mut plan = FormulaPlan { steps: Vec::new(), too_large: None };
    let mut index: usize = 0;
    assert(steps_view(plan.steps@) =~= added.take(0));
    while index < sheets.len()
        invariant
            index <= sheets@.len(),
            views == sheets_view(sheets@),
            added == views.map_values(
                |sheet: SheetView| EngineStepView::AddSheet(sheet.name),
            ),
            plan@.steps == added.take(index as int),
            plan@.too_large is None,
        decreases sheets@.len() - index,
    {
        plan.push(EngineStep::AddSheet(sheets[index].name.clone()));
        index += 1;
        assert(plan@.steps =~= added.take(index as int));
    }
    assert(added.take(index as int) == added);
    let ghost start = plan@;
    let mut index: usize = 0;
    assert(views.take(0) == Seq::<SheetView>::empty());
    while index < sheets.len()
        invariant
            index <= sheets@.len(),
            views == sheets_view(sheets@),
            plan@ == start.after_sheets(views.take(index as int), mode),
        decreases sheets@.len() - index,
    {
        proof {
            assert(views.take(index + 1).drop_last() == views.take(index as int));
            assert(views.take(index + 1).last() == sheets@[index as int]@);
        }
        plan.add_sheet_cells(&sheets[index], mode);
        index += 1;
    }
    assert(views.take(index as int) == views);
    plan
}

/// A value that the engine returns.
#[derive(Debug)]
pub enum FormulaValue {
    Empty,
    Int(i64),
    /// A number, by its bit pattern.
    Number(u64),
    Boolean(bool),
    Text(String),
    /// A date, as text.
    Date(String),
    /// A point in time, as text.
    DateTime(String),
    /// A time of the day, as text.
    Time(String),
    /// A duration, as text.
    Duration(String),
    /// Values in rows and columns.
    Array,
    /// A value that is not known yet.
    Pending,
    /// An error value.
    Error,
}

/// The mathematical content of a [`FormulaValue`].
#[verifier::ext_equal]
pub enum FormulaValueView {
    Empty,
    Int(i64),
    Number(u64),
    Boolean(bool),
    Text(Seq<char>),
    Date(Seq<char>),
    DateTime(Seq<char>),
    Time(Seq<char>),
    Duration(Seq<char>),
    Array,
    Pending,
    Error,
}

impl View for FormulaValue {
    type V = FormulaValueView;

    open spec fn view(&self) -> FormulaValueView {
        match self {
            FormulaValue::Empty => FormulaValueView::Empty,
            FormulaValue::Int(value) => FormulaValueView::Int(*value),
            FormulaValue::Number(bits) => FormulaValueView::Number(*bits),
            FormulaValue::Boolean(value) => FormulaValueView::Boolean(*value),
            FormulaValue::Text(text) => FormulaValueView::Text(text@),
            FormulaValue::Date(text) => FormulaValueView::Date(text@),
            FormulaValue::DateTime(text) => FormulaValueView::DateTime(text@),
            FormulaValue::Time(text) => FormulaValueView::Time(text@),
            FormulaValue::Duration(text) => FormulaValueView::Duration(text@),
            FormulaValue::Array => FormulaValueView::Array,
            FormulaValue::Pending => FormulaValueView::Pending,
            FormulaValue::Error => FormulaValueView::Error,
        }
    }
}

/// The number that has to be written out to display a value.
pub open spec fn formula_request_of(
    value: FormulaValueView,
    format: Option<CellDisplayFormat>,
) -> Option<NumberRequest> {
    match value {
        FormulaValueView::Int(value) => Some(
            NumberRequest { number: SheetNumber::Int(value), layout: layout_of(format) },
        ),
        FormulaValueView::Number(bits) => Some(
            NumberRequest { number: SheetNumber::Float(bits), layout: layout_of(format) },
        ),
        _ => None,
    }
}

/// The number that has to be written out to display a value.
pub fn formula_number_request(
    value: &FormulaValue,
    format: Option<CellDisplayFormat>,
) -> (request: Option<NumberRequest>)
    ensures
        request == formula_request_of(value@, format),
{
    let layout = match format {
        Some(format) => format.layout(),
        None => NumberLayout::Plain,
    };
    match value {
        FormulaValue::Int(value) => Some(
            NumberRequest { number: SheetNumber::Int(*value), layout },
        ),
        FormulaValue::Number(bits) => Some(
            NumberRequest { number: SheetNumber::Float(*bits), layout },
        ),
        _ => None,
    }
}

/// The text and the kind of value that a cell gets from a returned value.
pub open spec fn cell_value_of(
    value: FormulaValueView,
    format: Option<CellDisplayFormat>,
    number: WrittenNumberView,
) -> Option<(Seq<char>, CellRawValue)> {
    match (value, format) {
        (FormulaValueView::Empty, _) => Some((Seq::empty(), CellRawValue::Empty)),
        (FormulaValueView::Int(value), None) => Some(
            (signed_decimal(value as int), CellRawValue::Number { bits: number.bits }),
        ),
        (FormulaValueView::Int(_), Some(format)) => Some(
            (
                number_display(format, number.negative, number.digits),
                CellRawValue::Number { bits: number.bits },
            ),
        ),
        (FormulaValueView::Number(bits), None) => Some(
            (number.digits, CellRawValue::Number { bits }),
        ),
        (FormulaValueView::Number(bits), Some(format)) => Some(
            (
                number_display(format, number.negative, number.digits),
                CellRawValue::Number { bits },
            ),
        ),
        (FormulaValueView::Boolean(value), _) => Some(
            (bool_text(value), CellRawValue::Bool(value)),
        ),
        (FormulaValueView::Text(text), _) => Some((text, CellRawValue::Text)),
        (FormulaValueView::Date(text), _) => Some((text, CellRawValue::DateTime)),
        (FormulaValueView::DateTime(text), _) => Some((text, CellRawValue::DateTime)),
        (FormulaValueView::Time(text), _) => Some((text, CellRawValue::DateTime)),
        (FormulaValueView::Duration(text), _) => Some((text, CellRawValue::DateTime)),
        (FormulaValueView::Array, _) => None,
        (FormulaValueView::Pending, _) => None,
        (FormulaValueView::Error, _) => None,
    }
}

/// The text and the kind of value that a cell gets from a returned value. A
/// number has to be written out as [`formula_number_request`] asks.
pub fn formula_value_to_cell_value(
    value: &FormulaValue,
    format: Option<CellDisplayFormat>,
    number: &WrittenNumber,
) -> (cell_value: Option<(String, CellRawValue)>)
    ensures
        match cell_value {
            Some((text, raw_value)) => cell_value_of(value@, format, number@) == Some(
                (text@, raw_value),
            ),
            None => cell_value_of(value@, format, number@) is None,
        },
{
    match value {
        FormulaValue::Empty => Some((String::new(), CellRawValue::Empty)),
        FormulaValue::Int(value) => {
            let text = match format {
                None => signed_decimal_text(*value),
                Some(format) => format.format_number(&number.text),
            };
            Some((text, CellRawValue::Number { bits: number.bits }))
        },
        FormulaValue::Number(bits) => {
            let text = match format {
                None => number.text.digits.clone(),
                Some(format) => format.format_number(&number.text),
            };
            Some((text, CellRawValue::Number { bits: *bits }))
        },
        FormulaValue::Boolean(value) => {
            let text = if *value {
                "true".to_owned()
            } else {
                "false".to_owned()
            };
            Some((text, CellRawValue::Bool(*value)))
        },
        FormulaValue::Text(text) => Some((text.clone(), CellRawValue::Text)),
        FormulaValue::Date(text) | FormulaValue::DateTime(text) | FormulaValue::Time(text)
        | FormulaValue::Duration(text) => Some((text.clone(), CellRawValue::DateTime)),
        FormulaValue::Array | FormulaValue::Pending | FormulaValue::Error => None,
    }
}

/// A value that was calculated is displayed as the same value in the file would be, in
/// every format: a number, a truth value, a text and nothing. It also counts as the same,
/// and its number has to be written out in the same way.
pub proof fn calculated_values_are_displayed_like_cached_ones(
    number: u64,
    whole: i64,
    truth: bool,
    text: Seq<char>,
    format: Option<CellDisplayFormat>,
    written: WrittenNumberView,
)
    ensures
        cell_value_of(FormulaValueView::Number(number), format, written) == Some(
            (
                display_text(SheetValueView::Float(number), format, written),
                raw_value_of(SheetValueView::Float(number), written),
            ),
        ),
        cell_value_of(FormulaValueView::Int(whole), format, written) == Some(
            (
                display_text(SheetValueView::Int(whole), format, written),
                raw_value_of(SheetValueView::Int(whole), written),
            ),
        ),
        cell_value_of(FormulaValueView::Boolean(truth), format, written) == Some(
            (
                display_text(SheetValueView::Bool(truth), format, written),
                raw_value_of(SheetValueView::Bool(truth), written),
            ),
        ),
        cell_value_of(FormulaValueView::Text(text), format, written) == Some(
            (
                display_text(SheetValueView::Text(text), format, written),
                raw_value_of(SheetValueView::Text(text), written),
            ),
        ),
        cell_value_of(FormulaValueView::DateTime(text), format, written) == Some(
            (
                display_text(SheetValueView::IsoDateTime(text), format, written),
                raw_value_of(SheetValueView::IsoDateTime(text), written),
            ),
        ),
        cell_value_of(FormulaValueView::Empty, format, written) == Some(
            (
                display_text(SheetValueView::Empty, format, written),
                raw_value_of(SheetValueView::Empty, written),
            ),
        ),
        formula_request_of(FormulaValueView::Number(number), format) == number_request_of(
            SheetValueView::Float(number),
            format,
        ),
        formula_request_of(FormulaValueView::Int(whole), format) == number_request_of(
            SheetValueView::Int(whole),
            format,
        ),
{
}

/// A calculated percentage is displayed by the digits that were written out and a percent
/// sign, a dollar amount with a dollar sign in front of its first digit, and a number
/// without a format by its digits alone.
pub proof fn calculated_numbers_bear_their_signs(
    value: FormulaValueView,
    decimals: usize,
    written: WrittenNumberView,
)
    requires
        value is Number || value is Int,
    ensures
        ({
            let percentage = calculated_text_of(
                EvaluationView::Value(value, written),
                Some(CellDisplayFormat::Percentage { decimals }),
            );
            percentage.len() > 0 && percentage.last() == '%' && percentage.drop_last()
                == written.digits
        }),
        ({
            let amount = calculated_text_of(
                EvaluationView::Value(value, written),
                Some(CellDisplayFormat::Currency { decimals }),
            );
            if written.negative {
                amount.len() >= 2 && amount[0] == '-' && amount[1] == '$'
            } else {
                amount.len() >= 1 && amount[0] == '$'
            }
        }),
        value is Number ==> calculated_text_of(EvaluationView::Value(value, written), None)
            == written.digits,
        value matches FormulaValueView::Int(whole) ==> (whole >= 0 ==> parsed_number(
            calculated_text_of(EvaluationView::Value(value, written), None),
            10,
        ) == Some(whole as nat)),
{
    percentages_end_in_a_percent_sign(decimals, written.negative, written.digits);
    if let FormulaValueView::Int(whole) = value {
        if whole >= 0 {
            decimal_text_reads_back(whole as nat);
        }
    }
}

/// Calculated dates, times and spans of time are displayed by their texts, and count as moments
/// in every format.
pub proof fn calculated_times_are_displayed_by_their_texts(
    text: Seq<char>,
    format: Option<CellDisplayFormat>,
    written: WrittenNumberView,
)
    ensures
        cell_value_of(FormulaValueView::Date(text), format, written) == Some(
            (text, CellRawValue::DateTime),
        ),
        cell_value_of(FormulaValueView::DateTime(text), format, written) == Some(
            (text, CellRawValue::DateTime),
        ),
        cell_value_of(FormulaValueView::Time(text), format, written) == Some(
            (text, CellRawValue::DateTime),
        ),
        cell_value_of(FormulaValueView::Duration(text), format, written) == Some(
            (text, CellRawValue::DateTime),
        ),
        calculated_text_of(EvaluationView::Value(FormulaValueView::Date(text), written), format)
            == text,
        calculated_text_of(EvaluationView::Value(FormulaValueView::Time(text), written), format)
            == text,
        calculated_text_of(
            EvaluationView::Value(FormulaValueView::Duration(text), written),
            format,
        ) == text,
        formula_request_of(FormulaValueView::Text(text), format) is None,
        formula_request_of(FormulaValueView::Empty, format) is None,
{
}

/// What could not be evaluated or displayed is shown as such, and never as a cached value
/// that is a number.
pub proof fn failures_are_no_values(
    message: Seq<char>,
    written: WrittenNumberView,
    format: Option<CellDisplayFormat>,
)
    ensures
        ({
            let text = calculated_text_of(EvaluationView::Failed(message), format);
            text.len() == message.len() + 9 && text[0] == '<' && text.last() == '>'
                && text.subrange(8, 8 + message.len() as int) == message
        }),
        ({
            let text = calculated_text_of(
                EvaluationView::Value(FormulaValueView::Error, written),
                format,
            );
            text.len() > 0 && text[0] == '<' && text.last() == '>'
        }),
        cell_value_of(FormulaValueView::Error, format, written) is None,
        cell_value_of(FormulaValueView::Pending, format, written) is None,
        cell_value_of(FormulaValueView::Array, format, written) is None,
{
    reveal_strlit("<error: ");
    reveal_strlit(">");
    reveal_strlit("<unsupported value>");
    let text = calculated_text_of(EvaluationView::Failed(message), format);
    assert(text.subrange(8, 8 + message.len() as int) =~= message);
}

/// A cell that the engine has to evaluate.
#[derive(Debug, Clone, Copy, PartialEq, Eq, Structural)]
pub struct FormulaCell {
    pub row: usize,
    pub col: usize,
    /// The engine's coordinates of the cell.
    pub engine_row: u32,
    pub engine_col: u32,
}

/// The cell that the engine has to evaluate at a position, if the cell lacks its
/// formula's value and the engine can take its coordinates.
pub open spec fn missing_cell(sheet: SheetView, row: int, col: int) -> Option<FormulaCell> {
    match (engine_coord(row), engine_coord(col)) {
        (Some(engine_row), Some(engine_col)) => if sheet.cell(row, col).lacks_formula_value() {
            Some(FormulaCell { row: row as usize, col: col as usize, engine_row, engine_col })
        } else {
            None
        },
        _ => None,
    }
}

/// The cells of the first columns of a row that the engine has to evaluate.
pub open spec fn missing_in_row(sheet: SheetView, row: int, cols: nat) -> Seq<FormulaCell>
    decreases cols,
{
    if cols == 0 {
        Seq::empty()
    } else {
        let earlier = missing_in_row(sheet, row, (cols - 1) as nat);
        match missing_cell(sheet, row, cols - 1) {
            Some(cell) => earlier.push(cell),
            None => earlier,
        }
    }
}

/// The cells of the first rows of a sheet that the engine has to evaluate.
pub open spec fn missing_in_rows(sheet: SheetView, rows: nat) -> Seq<FormulaCell>
    decreases rows,
{
    if rows == 0 {
        Seq::empty()
    } else {
        missing_in_rows(sheet, (rows - 1) as nat) + missing_in_row(
            sheet,
            rows - 1,
            sheet.col_count,
        )
    }
}

/// Lists the cells of a sheet that lack their formula's value, row by row.
pub fn missing_formula_cells(sheet: &SheetData) -> (cells: Vec<FormulaCell>)
    ensures
        cells@ == missing_in_rows(sheet@, sheet@.row_count),
{
    let mut cells: Vec<FormulaCell> = Vec::new();
    let mut row: usize = 0;
    while row < sheet.row_count
        invariant
            row <= sheet.row_count,
            cells@ == missing_in_rows(sheet@, row as nat),
        decreases sheet.row_count - row,
    {
        let ghost before = cells@;
        let mut col: usize = 0;
        while col < sheet.col_count
            invariant
                row < sheet.row_count,
                col <= sheet.col_count,
                cells@ == before + missing_in_row(sheet@, row as int, col as nat),
            decreases sheet.col_count - col,
        {
            if let (Some(engine_row), Some(engine_col)) = (coord_u32(row), coord_u32(col)) {
                if let Some(cell) = sheet.cell_ref(row, col) {
                    if cell.lacks_formula_value() {
                        cells.push(FormulaCell { row, col, engine_row, engine_col });
                    }
                }
            }
            col += 1;
        }
        row += 1;
    }
    cells
}

/// Whether a sheet lacks the value of a formula somewhere.
pub open spec fn some_sheet_lacks_values(sheets: Seq<SheetView>) -> bool {
    exists|i: int| 0 <= i < sheets.len() && (#[trigger] sheets[i]).lacks_formula_values()
}

/// Whether a sheet lacks the value of a formula somewhere.
pub fn needs_evaluation(sheets: &Vec<SheetData>) -> (needed: bool)
    ensures
        needed == some_sheet_lacks_values(sheets_view(sheets@)),
{
    let ghost views = sheets_view(sheets@);
    let mut index: usize = 0;
    while index < sheets.len()
        invariant
            index <= sheets@.len(),
            views == sheets_view(sheets@),
            forall|i: int| 0 <= i < index ==> !(#[trigger] views[i]).lacks_formula_values(),
        decreases sheets@.len() - index,
    {
        assert(views[index as int] == sheets@[index as int]@);
        if sheets[index].has_missing_formula_values() {
            return true;
        }
        index += 1;
    }
    false
}

/// A cell with the value that the engine returned.
pub open spec fn evaluated_cell(
    cell: CellView,
    value: FormulaValueView,
    number: WrittenNumberView,
) -> CellView {
    match cell_value_of(value, cell.display_format, number) {
        Some((text, raw_value)) => CellView { value: text, raw_value, ..cell },
        None => cell,
    }
}

/// A sheet with one cell that it holds replaced.
pub open spec fn with_cell(sheet: SheetView, row: int, col: int, cell: CellView) -> SheetView {
    let index = row - sheet.first_row;
    SheetView {
        rows: sheet.rows.update(index, sheet.rows[index].update(col, cell)),
        ..sheet
    }
}

/// Whether a sheet holds a cell at a position.
pub open spec fn holds_cell(sheet: SheetView, row: int, col: int) -> bool {
    &&& sheet.first_row <= row < sheet.first_row + sheet.rows.len()
    &&& 0 <= col < sheet.rows[row - sheet.first_row].len()
}

impl SheetData {
    /// Takes over the value that the engine returned for a cell.
    pub fn set_formula_value(
        &mut self,
        row: usize,
        col: usize,
        value: &FormulaValue,
        number: &WrittenNumber,
    )
        requires
            holds_cell(old(self)@, row as int, col as int),
        ensures
            final(self)@ == with_cell(
                old(self)@,
                row as int,
                col as int,
                evaluated_cell(old(self)@.cell(row as int, col as int), value@, number@),
            ),
    {
        let ghost before = self@;
        let index: usize = row - self.first_row;
        assert(before.rows[index as int] == cells_view(self.rows@[index as int]@));
        let mut cell = self.rows[index][col].clone();
        if let Some((text, raw_value)) = formula_value_to_cell_value(
            value,
            cell.display_format,
            number,
        ) {
            cell.value = text;
            cell.raw_value = raw_value;
        }
        let ghost old_row = self.rows@[index as int];
        let ghost new_cell = cell@;
        let ghost old_rows = self.rows@;
        self.rows[index][col] = cell;
        proof {
            assert(cells_view(self.rows@[index as int]@) =~= cells_view(old_row@).update(
                col as int,
                new_cell,
            ));
            assert(cell_rows_view(self.rows@) =~= cell_rows_view(old_rows).update(
                index as int,
                cells_view(old_row@).update(col as int, new_cell),
            ));
        }
    }
}

/// A sheet with the values that the engine returned for the first of the cells;
/// a cell whose evaluation failed is left as it is.
pub open spec fn filled(
    sheet: SheetView,
    cells: Seq<FormulaCell>,
    evaluations: Seq<EvaluationView>,
    count: nat,
) -> SheetView
    decreases count,
{
    if count == 0 {
        sheet
    } else {
        let earlier = filled(sheet, cells, evaluations, (count - 1) as nat);
        let cell = cells[count - 1];
        match evaluations[count - 1] {
            EvaluationView::Value(value, number) => with_cell(
                earlier,
                cell.row as int,
                cell.col as int,
                evaluated_cell(earlier.cell(cell.row as int, cell.col as int), value, number),
            ),
            EvaluationView::Failed(_) => earlier,
        }
    }
}

/// Whether two sheets hold cells at the same positions.
pub open spec fn same_places(left: SheetView, right: SheetView) -> bool {
    &&& left.first_row == right.first_row
    &&& crate::display::same_shape(left.rows, right.rows)
}

proof fn lemma_filled_places(
    sheet: SheetView,
    cells: Seq<FormulaCell>,
    evaluations: Seq<EvaluationView>,
    count: nat,
)
    requires
        count <= cells.len(),
        forall|i: int|
            0 <= i < cells.len() ==> holds_cell(
                sheet,
                (#[trigger] cells[i]).row as int,
                cells[i].col as int,
            ),
    ensures
        same_places(filled(sheet, cells, evaluations, count), sheet),
    decreases count,
{
    if count > 0 {
        lemma_filled_places(sheet, cells, evaluations, (count - 1) as nat);
        let earlier = filled(sheet, cells, evaluations, (count - 1) as nat);
        let cell = cells[count - 1];
        assert(holds_cell(sheet, cell.row as int, cell.col as int));
        assert(sheet.rows[cell.row - sheet.first_row].len() == earlier.rows[cell.row
            - sheet.first_row].len());
        assert(holds_cell(earlier, cell.row as int, cell.col as int));
    }
}

proof fn lemma_missing_in_row(sheet: SheetView, row: int, cols: nat, index: int)
    requires
        0 <= row < usize::MAX,
        cols <= usize::MAX,
        0 <= index < missing_in_row(sheet, row, cols).len(),
    ensures
        ({
            let cell = missing_in_row(sheet, row, cols)[index];
            cell.row == row && cell.col < cols && sheet.cell(
                row,
                cell.col as int,
            ).lacks_formula_value()
        }),
    decreases cols,
{
    if cols > 0 && index < missing_in_row(sheet, row, (cols - 1) as nat).len() {
        lemma_missing_in_row(sheet, row, (cols - 1) as nat, index);
    }
}

proof fn lemma_missing_in_rows(sheet: SheetView, rows: nat, index: int)
    requires
        rows <= usize::MAX,
        sheet.col_count <= usize::MAX,
        0 <= index < missing_in_rows(sheet, rows).len(),
    ensures
        ({
            let cell = missing_in_rows(sheet, rows)[index];
            cell.row < rows && cell.col < sheet.col_count && sheet.cell(
                cell.row as int,
                cell.col as int,
            ).lacks_formula_value() && holds_cell(sheet, cell.row as int, cell.col as int)
        }),
    decreases rows,
{
    if rows > 0 {
        let earlier = missing_in_rows(sheet, (rows - 1) as nat);
        if index < earlier.len() {
            lemma_missing_in_rows(sheet, (rows - 1) as nat, index);
        } else {
            lemma_missing_in_row(sheet, rows - 1, sheet.col_count, index - earlier.len());
        }
    }
}

/// The content of a list of evaluations.
pub open spec fn evaluations_view(evaluations: Seq<Evaluation>) -> Seq<EvaluationView> {
    evaluations.map_values(|evaluation: Evaluation| evaluation@)
}

/// Takes over what came of evaluating the cells that lack their formula's value,
/// in the order of [`missing_formula_cells`].
pub fn calculate_missing_formula_values(sheet: &mut SheetData, evaluations: &Vec<Evaluation>)
    requires
        evaluations@.len() == missing_in_rows(old(sheet)@, old(sheet)@.row_count).len(),
    ensures
        final(sheet)@ == filled(
            old(sheet)@,
            missing_in_rows(old(sheet)@, old(sheet)@.row_count),
            evaluations_view(evaluations@),
            evaluations@.len(),
        ),
{
    let cells = missing_formula_cells(sheet);
    let ghost start = sheet@;
    let ghost views = evaluations_view(evaluations@);
    proof {
        assert forall|i: int| 0 <= i < cells@.len() implies holds_cell(
            start,
            (#[trigger] cells@[i]).row as int,
            cells@[i].col as int,
        ) by {
            lemma_missing_in_rows(start, start.row_count, i);
        }
    }
    let mut index: usize = 0;
    while index < cells.len()
        invariant
            index <= cells@.len(),
            cells@.len() == evaluations@.len(),
            views == evaluations_view(evaluations@),
            forall|i: int|
                0 <= i < cells@.len() ==> holds_cell(
                    start,
                    (#[trigger] cells@[i]).row as int,
                    cells@[i].col as int,
                ),
            sheet@ == filled(start, cells@, views, index as nat),
        decreases cells@.len() - index,
    {
        let cell = cells[index];
        proof {
            lemma_filled_places(start, cells@, views, index as nat);
            assert(holds_cell(start, cell.row as int, cell.col as int));
            assert(start.rows[cell.row - start.first_row].len() == sheet@.rows[cell.row
                - start.first_row].len());
        }
        match &evaluations[index] {
            Evaluation::Value(value, number) => {
                sheet.set_formula_value(cell.row, cell.col, value, number);
            },
            Evaluation::Failed(_) => {},
        }
        index += 1;
    }
}

/// Filling values in changes no cell but those that lacked their formula's
/// value, and no cell's formula or style.
pub proof fn filling_touches_missing_cells_only(
    sheet: SheetView,
    evaluations: Seq<EvaluationView>,
    count: nat,
    row: int,
    col: int,
)
    requires
        sheet.row_count <= usize::MAX,
        sheet.col_count <= usize::MAX,
        count <= missing_in_rows(sheet, sheet.row_count).len(),
        0 <= row,
        0 <= col,
    ensures
        ({
            let after = filled(
                sheet,
                missing_in_rows(sheet, sheet.row_count),
                evaluations,
                count,
            ).cell(row, col);
            let before = sheet.cell(row, col);
            &&& !before.lacks_formula_value() ==> after == before
            &&& after.formula == before.formula
            &&& after.style == before.style
            &&& after.display_format == before.display_format
            &&& after.formula_value_was_uncached == before.formula_value_was_uncached
        }),
    decreases count,
{
    let cells = missing_in_rows(sheet, sheet.row_count);
    if count > 0 {
        filling_touches_missing_cells_only(sheet, evaluations, (count - 1) as nat, row, col);
        assert forall|i: int| 0 <= i < cells.len() implies holds_cell(
            sheet,
            (#[trigger] cells[i]).row as int,
            cells[i].col as int,
        ) by {
            lemma_missing_in_rows(sheet, sheet.row_count, i);
        }
        lemma_missing_in_rows(sheet, sheet.row_count, count - 1);
        lemma_filled_places(sheet, cells, evaluations, (count - 1) as nat);
        let earlier = filled(sheet, cells, evaluations, (count - 1) as nat);
        let cell = cells[count - 1];
        assert(sheet.rows[cell.row - sheet.first_row].len() == earlier.rows[cell.row
            - sheet.first_row].len());
    }
}

/// Whether a position comes before another, row by row.
pub open spec fn comes_before(row: int, col: int, other_row: int, other_col: int) -> bool {
    row < other_row || (row == other_row && col < other_col)
}

/// Whether cells are those of a sheet that have a formula and display nothing, as far as the
/// engine can take them and as they come before a position: each once and row by row, with
/// the engine's coordinates counted from one.
pub open spec fn lists_missing_values(
    cells: Seq<FormulaCell>,
    sheet: SheetView,
    row: int,
    col: int,
) -> bool {
    &&& forall|k: int|
        0 <= k < cells.len() ==> comes_before(
            (#[trigger] cells[k]).row as int,
            cells[k].col as int,
            row,
            col,
        ) && cells[k].col < sheet.col_count && is_missing(
            sheet.cell(cells[k].row as int, cells[k].col as int),
        ) && cells[k].engine_row == cells[k].row + 1 && cells[k].engine_col == cells[k].col + 1
    &&& forall|j: int, k: int|
        0 <= j < k < cells.len() ==> comes_before(
            (#[trigger] cells[j]).row as int,
            cells[j].col as int,
            (#[trigger] cells[k]).row as int,
            cells[k].col as int,
        )
    &&& forall|r: int, c: int|
        0 <= r < u32::MAX && 0 <= c < u32::MAX && c < sheet.col_count && comes_before(
            r,
            c,
            row,
            col,
        ) && is_missing(#[trigger] sheet.cell(r, c)) ==> exists|k: int|
            0 <= k < cells.len() && (#[trigger] cells[k]).row == r && cells[k].col == c
}

/// Whether a cell has a formula and displays nothing.
pub open spec fn is_missing(cell: CellView) -> bool {
    cell.formula is Some && cell.formula->0.len() > 0 && cell.value.len() == 0
}

proof fn lemma_missing_row(sheet: SheetView, row: int, cols: nat, before: Seq<FormulaCell>)
    requires
        0 <= row,
        cols <= sheet.col_count,
        lists_missing_values(before, sheet, row, 0),
    ensures
        lists_missing_values(
            before + missing_in_row(sheet, row, cols),
            sheet,
            row,
            cols as int,
        ),
    decreases cols,
{
    if cols == 0 {
        assert(before + missing_in_row(sheet, row, cols) =~= before);
    } else {
        let fewer = (cols - 1) as nat;
        lemma_missing_row(sheet, row, fewer, before);
        let earlier = before + missing_in_row(sheet, row, fewer);
        let later = before + missing_in_row(sheet, row, cols);
        match missing_cell(sheet, row, fewer as int) {
            Some(cell) => {
                assert(later =~= earlier.push(cell));
            },
            None => {
                assert(later =~= earlier);
            },
        }
        assert forall|r: int, c: int|
            0 <= r < u32::MAX && 0 <= c < u32::MAX && c < sheet.col_count && comes_before(
                r,
                c,
                row,
                cols as int,
            ) && is_missing(#[trigger] sheet.cell(r, c)) implies exists|k: int|
            0 <= k < later.len() && (#[trigger] later[k]).row == r && later[k].col == c by {
            if comes_before(r, c, row, fewer as int) {
                let k = choose|k: int|
                    0 <= k < earlier.len() && (#[trigger] earlier[k]).row == r && earlier[k].col
                        == c;
                assert(later[k] == earlier[k]);
            } else {
                assert(r == row && c == fewer);
                let k = earlier.len() as int;
                assert(later[k].row == r && later[k].col == c);
            }
        }
        assert forall|j: int, k: int| 0 <= j < k < later.len() implies comes_before(
            (#[trigger] later[j]).row as int,
            later[j].col as int,
            (#[trigger] later[k]).row as int,
            later[k].col as int,
        ) by {
            assert(later[j] == earlier[j]);
            if k < earlier.len() {
                assert(later[k] == earlier[k]);
            }
        }
        assert forall|k: int| 0 <= k < later.len() implies comes_before(
            (#[trigger] later[k]).row as int,
            later[k].col as int,
            row,
            cols as int,
        ) && later[k].col < sheet.col_count && is_missing(
            sheet.cell(later[k].row as int, later[k].col as int),
        ) && later[k].engine_row == later[k].row + 1 && later[k].engine_col == later[k].col + 1 by {
            if k < earlier.len() {
                assert(later[k] == earlier[k]);
            }
        }
    }
}

proof fn lemma_missing_rows(sheet: SheetView, rows: nat)
    ensures
        lists_missing_values(missing_in_rows(sheet, rows), sheet, rows as int, 0),
    decreases rows,
{
    if rows > 0 {
        let fewer = (rows - 1) as nat;
        lemma_missing_rows(sheet, fewer);
        lemma_missing_row(sheet, fewer as int, sheet.col_count, missing_in_rows(sheet, fewer));
        let cells = missing_in_rows(sheet, rows);
        assert forall|r: int, c: int|
            0 <= r < u32::MAX && 0 <= c < u32::MAX && c < sheet.col_count && comes_before(
                r,
                c,
                rows as int,
                0,
            ) && is_missing(#[trigger] sheet.cell(r, c)) implies exists|k: int|
            0 <= k < cells.len() && (#[trigger] cells[k]).row == r && cells[k].col == c by {
            assert(comes_before(r, c, fewer as int, sheet.col_count as int));
        }
    }
}

/// The engine evaluates every cell that has a formula and displays nothing, once, and no
/// other.
pub proof fn every_missing_value_is_evaluated(sheet: SheetView)
    ensures
        lists_missing_values(
            missing_in_rows(sheet, sheet.row_count),
            sheet,
            sheet.row_count as int,
            0,
        ),
{
    lemma_missing_rows(sheet, sheet.row_count);
}

proof fn lemma_filled_at(
    sheet: SheetView,
    evaluations: Seq<EvaluationView>,
    count: nat,
    index: int,
)
    requires
        sheet.row_count <= usize::MAX,
        sheet.col_count <= usize::MAX,
        count <= missing_in_rows(sheet, sheet.row_count).len(),
        0 <= index < missing_in_rows(sheet, sheet.row_count).len(),
    ensures
        ({
            let cells = missing_in_rows(sheet, sheet.row_count);
            let cell = cells[index];
            let before = sheet.cell(cell.row as int, cell.col as int);
            filled(sheet, cells, evaluations, count).cell(cell.row as int, cell.col as int)
                == if index < count {
                match evaluations[index] {
                    EvaluationView::Value(value, number) => evaluated_cell(before, value, number),
                    EvaluationView::Failed(_) => before,
                }
            } else {
                before
            }
        }),
    decreases count,
{
    let cells = missing_in_rows(sheet, sheet.row_count);
    if count > 0 {
        let fewer = (count - 1) as nat;
        lemma_filled_at(sheet, evaluations, fewer, index);
        assert forall|i: int| 0 <= i < cells.len() implies holds_cell(
            sheet,
            (#[trigger] cells[i]).row as int,
            cells[i].col as int,
        ) by {
            lemma_missing_in_rows(sheet, sheet.row_count, i);
        }
        lemma_filled_places(sheet, cells, evaluations, fewer);
        every_missing_value_is_evaluated(sheet);
        let earlier = filled(sheet, cells, evaluations, fewer);
        let last = cells[fewer as int];
        let cell = cells[index];
        assert(holds_cell(sheet, last.row as int, last.col as int));
        assert(sheet.rows[last.row - sheet.first_row].len() == earlier.rows[last.row
            - sheet.first_row].len());
        if index != fewer {
            assert(last.row != cell.row || last.col != cell.col) by {
                if index < fewer {
                    assert(comes_before(
                        cells[index].row as int,
                        cells[index].col as int,
                        cells[fewer as int].row as int,
                        cells[fewer as int].col as int,
                    ));
                } else {
                    assert(comes_before(
                        cells[fewer as int].row as int,
                        cells[fewer as int].col as int,
                        cells[index].row as int,
                        cells[index].col as int,
                    ));
                }
            }
        }
    }
}

/// Each cell that was evaluated gets the value that came of its own evaluation: the text and
/// the kind of the returned value in the cell's format. It stays as it is where evaluating
/// it failed, or returned what no cell can display.
pub proof fn evaluated_cells_get_their_values(
    sheet: SheetView,
    evaluations: Seq<EvaluationView>,
    index: int,
)
    requires
        sheet.row_count <= usize::MAX,
        sheet.col_count <= usize::MAX,
        evaluations.len() == missing_in_rows(sheet, sheet.row_count).len(),
        0 <= index < evaluations.len(),
    ensures
        ({
            let cells = missing_in_rows(sheet, sheet.row_count);
            let (row, col) = (cells[index].row as int, cells[index].col as int);
            let before = sheet.cell(row, col);
            let after = filled(sheet, cells, evaluations, evaluations.len()).cell(row, col);
            match evaluations[index] {
                EvaluationView::Failed(_) => after == before,
                EvaluationView::Value(value, number) => match cell_value_of(
                    value,
                    before.display_format,
                    number,
                ) {
                    Some((text, raw)) => after.value == text && after.raw_value == raw
                        && after.formula == before.formula && after.style == before.style
                        && after.display_format == before.display_format
                        && after.formula_value_was_uncached == before.formula_value_was_uncached,
                    None => after == before,
                },
            }
        }),
{
    lemma_filled_at(sheet, evaluations, evaluations.len(), index);
}

/// What the engine is told of a cell without a formula is the value that the cell holds: a
/// number by its bits, a truth value, or the displayed text. It is told nothing of a cell
/// that displays nothing, unless that holds a text.
pub proof fn the_engine_is_told_the_values(cell: CellView)
    ensures
        cell.raw_value matches CellRawValue::Number { bits } ==> literal_of(cell) == Some(
            FormulaLiteralView::Number(bits),
        ),
        cell.raw_value matches CellRawValue::Bool(truth) ==> literal_of(cell) == Some(
            FormulaLiteralView::Boolean(truth),
        ),
        (cell.raw_value is Text || cell.raw_value is DateTime) ==> literal_of(cell) == Some(
            FormulaLiteralView::Text(cell.value),
        ),
        cell.raw_value is Empty ==> (literal_of(cell) == if cell.value == Seq::<char>::empty() {
            None
        } else {
            Some(FormulaLiteralView::Text(cell.value))
        }),
{
    if cell.value.len() == 0 {
        assert(cell.value =~= Seq::<char>::empty());
    }
}

/// What the engine is told of a cell: its formula behind an equals sign, or else its value,
/// at the cell's coordinates counted from one. Where values in the file count, a cell that
/// displays something is told by its value.
pub proof fn the_engine_is_told_the_cells(
    sheet: SheetView,
    row: int,
    col: int,
    mode: FormulaWorkbookMode,
)
    requires
        0 <= row < u32::MAX,
        0 <= col < u32::MAX,
    ensures
        ({
            let cell = sheet.cell(row, col);
            let told = cell_step(sheet, row, col, mode);
            let has_formula = cell.formula is Some && cell.formula->0.len() > 0;
            if has_formula && (mode == FormulaWorkbookMode::AllFormulas || cell.value.len() == 0) {
                &&& told matches Ok(Some(EngineStepView::SetFormula { sheet: name, row: r, col: c, formula }))
                &&& name == sheet.name && r == row + 1 && c == col + 1
                &&& formula.len() > 0 && formula[0] == '='
                &&& formula == cell.formula->0 || formula.skip(1) == cell.formula->0
            } else {
                match literal_of(cell) {
                    None => told == Ok::<Option<EngineStepView>, usize>(None),
                    Some(literal) => {
                        &&& told matches Ok(Some(EngineStepView::SetValue { sheet: name, row: r, col: c, value }))
                        &&& name == sheet.name && r == row + 1 && c == col + 1 && value == literal
                    },
                }
            }
        }),
{
    let cell = sheet.cell(row, col);
    if cell.formula is Some {
        let formula = cell.formula->0;
        assert((seq!['='] + formula).skip(1) =~= formula);
    }
}

/// Whether the engine is told of a cell.
pub open spec fn is_told(step: Result<Option<EngineStepView>, usize>) -> bool {
    step is Ok && step->Ok_0 is Some
}

proof fn lemma_steps_stay(
    plan: FormulaPlanView,
    sheet: SheetView,
    row: int,
    cols: nat,
    mode: FormulaWorkbookMode,
)
    ensures
        ({
            let after = plan.after_cells(sheet, row, cols, mode);
            &&& after.too_large is None ==> plan.too_large is None
            &&& plan.steps.len() <= after.steps.len()
            &&& after.steps.take(plan.steps.len() as int) == plan.steps
            &&& after.too_large is None ==> forall|col: int|
                0 <= col < cols && is_told(cell_step(sheet, row, col, mode))
                    ==> after.steps.contains(#[trigger] cell_step(sheet, row, col, mode)->Ok_0->0)
        }),
    decreases cols,
{
    if cols > 0 {
        let fewer = (cols - 1) as nat;
        lemma_steps_stay(plan, sheet, row, fewer, mode);
        let before = plan.after_cells(sheet, row, fewer, mode);
        let after = plan.after_cells(sheet, row, cols, mode);
        assert(after.steps.take(plan.steps.len() as int) =~= before.steps.take(
            plan.steps.len() as int,
        ));
        if after.too_large is None {
            assert forall|col: int|
                0 <= col < cols && is_told(cell_step(sheet, row, col, mode)) implies after.steps.contains(
                #[trigger] cell_step(sheet, row, col, mode)->Ok_0->0,
            ) by {
                let step = cell_step(sheet, row, col, mode)->Ok_0->0;
                if col < fewer {
                    assert(before.steps.contains(step));
                    let k = choose|k: int| 0 <= k < before.steps.len() && before.steps[k] == step;
                    assert(after.steps[k] == step);
                } else {
                    assert(after.steps[before.steps.len() as int] == step);
                }
            }
        }
    } else {
        assert(plan.steps.take(plan.steps.len() as int) =~= plan.steps);
    }
}

proof fn lemma_rows_stay(
    plan: FormulaPlanView,
    sheet: SheetView,
    rows: nat,
    mode: FormulaWorkbookMode,
)
    ensures
        ({
            let after = plan.after_rows(sheet, rows, mode);
            &&& after.too_large is None ==> plan.too_large is None
            &&& plan.steps.len() <= after.steps.len()
            &&& after.steps.take(plan.steps.len() as int) == plan.steps
            &&& after.too_large is None ==> forall|row: int, col: int|
                0 <= row < rows && 0 <= col < sheet.col_count && is_told(
                    cell_step(sheet, row, col, mode),
                ) ==> after.steps.contains(#[trigger] cell_step(sheet, row, col, mode)->Ok_0->0)
        }),
    decreases rows,
{
    if rows > 0 {
        let fewer = (rows - 1) as nat;
        lemma_rows_stay(plan, sheet, fewer, mode);
        let before = plan.after_rows(sheet, fewer, mode);
        let after = plan.after_rows(sheet, rows, mode);
        lemma_steps_stay(before, sheet, fewer as int, sheet.col_count, mode);
        assert(after.steps.take(plan.steps.len() as int) =~= after.steps.take(
            before.steps.len() as int,
        ).take(plan.steps.len() as int));
        if after.too_large is None {
            assert forall|row: int, col: int|
                0 <= row < rows && 0 <= col < sheet.col_count && is_told(
                    cell_step(sheet, row, col, mode),
                ) implies after.steps.contains(#[trigger] cell_step(sheet, row, col, mode)->Ok_0->0) by {
                if row < fewer {
                    lemma_contained_stays(
                        before.steps,
                        after.steps,
                        cell_step(sheet, row, col, mode)->Ok_0->0,
                    );
                }
            }
        }
    } else {
        assert(plan.steps.take(plan.steps.len() as int) =~= plan.steps);
    }
}

proof fn lemma_contained_stays(
    earlier: Seq<EngineStepView>,
    later: Seq<EngineStepView>,
    step: EngineStepView,
)
    requires
        earlier.len() <= later.len(),
        later.take(earlier.len() as int) == earlier,
        earlier.contains(step),
    ensures
        later.contains(step),
{
    let k = choose|k: int| 0 <= k < earlier.len() && earlier[k] == step;
    assert(later.take(earlier.len() as int)[k] == later[k]);
}

proof fn lemma_sheets_stay(
    plan: FormulaPlanView,
    sheets: Seq<SheetView>,
    mode: FormulaWorkbookMode,
)
    ensures
        ({
            let after = plan.after_sheets(sheets, mode);
            &&& after.too_large is None ==> plan.too_large is None
            &&& plan.steps.len() <= after.steps.len()
            &&& after.steps.take(plan.steps.len() as int) == plan.steps
            &&& after.too_large is None ==> forall|index: int, row: int, col: int|
                0 <= index < sheets.len() && 0 <= row < sheets[index].row_count && 0 <= col
                    < sheets[index].col_count && is_told(cell_step(sheets[index], row, col, mode))
                    ==> after.steps.contains(
                    #[trigger] cell_step(sheets[index], row, col, mode)->Ok_0->0,
                )
        }),
    decreases sheets.len(),
{
    if sheets.len() > 0 {
        let fewer = sheets.drop_last();
        lemma_sheets_stay(plan, fewer, mode);
        let before = plan.after_sheets(fewer, mode);
        let after = plan.after_sheets(sheets, mode);
        lemma_rows_stay(before, sheets.last(), sheets.last().row_count, mode);
        assert(after.steps.take(plan.steps.len() as int) =~= after.steps.take(
            before.steps.len() as int,
        ).take(plan.steps.len() as int));
        if after.too_large is None {
            assert forall|index: int, row: int, col: int|
                0 <= index < sheets.len() && 0 <= row < sheets[index].row_count && 0 <= col
                    < sheets[index].col_count && is_told(
                    cell_step(sheets[index], row, col, mode),
                ) implies after.steps.contains(
                #[trigger] cell_step(sheets[index], row, col, mode)->Ok_0->0,
            ) by {
                if index < fewer.len() {
                    assert(fewer[index] == sheets[index]);
                    lemma_contained_stays(
                        before.steps,
                        after.steps,
                        cell_step(fewer[index], row, col, mode)->Ok_0->0,
                    );
                }
            }
        }
    } else {
        assert(plan.steps.take(plan.steps.len() as int) =~= plan.steps);
    }
}

/// A plan begins with the sheets in their order, and leaves no cell out that the engine can
/// be told of.
pub proof fn the_engine_is_told_the_workbook(sheets: Seq<SheetView>, mode: FormulaWorkbookMode)
    ensures
        ({
            let plan = workbook_plan(sheets, mode);
            &&& plan.steps.len() >= sheets.len()
            &&& forall|index: int|
                0 <= index < sheets.len() ==> #[trigger] plan.steps[index]
                    == EngineStepView::AddSheet(sheets[index].name)
            &&& plan.too_large is None ==> forall|index: int, row: int, col: int|
                0 <= index < sheets.len() && 0 <= row < sheets[index].row_count && 0 <= col
                    < sheets[index].col_count && is_told(cell_step(sheets[index], row, col, mode))
                    ==> plan.steps.contains(
                    #[trigger] cell_step(sheets[index], row, col, mode)->Ok_0->0,
                )
        }),
{
    let start = FormulaPlanView {
        steps: sheets.map_values(|sheet: SheetView| EngineStepView::AddSheet(sheet.name)),
        too_large: None,
    };
    lemma_sheets_stay(start, sheets, mode);
    let plan = workbook_plan(sheets, mode);
    assert forall|index: int| 0 <= index < sheets.len() implies #[trigger] plan.steps[index]
        == EngineStepView::AddSheet(sheets[index].name) by {
        assert(plan.steps.take(start.steps.len() as int)[index] == start.steps[index]);
    }
}

/// What came of evaluating a cell.
pub enum Evaluation {
    /// The returned value, with its number written out.
    Value(FormulaValue, WrittenNumber),
    /// The message of the error.
    Failed(String),
}

/// The mathematical content of an [`Evaluation`].
#[verifier::ext_equal]
pub enum EvaluationView {
    Value(FormulaValueView, WrittenNumberView),
    Failed(Seq<char>),
}

impl View for Evaluation {
    type V = EvaluationView;

    open spec fn view(&self) -> EvaluationView {
        match self {
            Evaluation::Value(value, number) => EvaluationView::Value(value@, number@),
            Evaluation::Failed(message) => EvaluationView::Failed(message@),
        }
    }
}

/// The text that a cell would display by what came of evaluating it.
pub open spec fn calculated_text_of(
    evaluation: EvaluationView,
    format: Option<CellDisplayFormat>,
) -> Seq<char> {
    match evaluation {
        EvaluationView::Value(value, number) => match cell_value_of(value, format, number) {
            Some((text, _)) => text,
            None => "<unsupported value>"@,
        },
        EvaluationView::Failed(message) => "<error: "@ + message + ">"@,
    }
}

/// The text that a cell would display by what came of evaluating it.
pub fn calculated_text(evaluation: &Evaluation, format: Option<CellDisplayFormat>) -> (text: String)
    ensures
        text@ == calculated_text_of(evaluation@, format),
{
    match evaluation {
        Evaluation::Value(value, number) => match formula_value_to_cell_value(
            value,
            format,
            number,
        ) {
            Some((text, _)) => text,
            None => "<unsupported value>".to_owned(),
        },
        Evaluation::Failed(message) => {
            let mut text = "<error: ".to_owned();
            text.push_str(message.as_str());
            text.push_str(">");
            text
        },
    }
}

/// What is said of a coordinate that the engine cannot take names the coordinate.
pub proof fn coordinates_too_large_are_named(index: nat)
    ensures
        ({
            let message = too_large_message_spec(index);
            parsed_number(message.subrange(16, message.len() - 13), 10) == Some(index)
        }),
{
    reveal_strlit("cell coordinate ");
    reveal_strlit(" is too large");
    decimal_text_reads_back(index);
    let message = too_large_message_spec(index);
    assert(message.subrange(16, message.len() - 13) =~= decimal(index));
}

} // verus!
