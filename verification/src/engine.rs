//! The formula engine: it is told a workbook and evaluates its formulas.

use vstd::prelude::*;

use formualizer_workbook::{LiteralValue, Workbook};

use crate::formulas::{
    cell_step, too_large_message, too_large_message_spec, workbook_plan, EngineStep,
    EngineStepView, FormulaCell, FormulaLiteral, FormulaLiteralView, FormulaPlan, FormulaPlanView,
    FormulaValue, FormulaValueView, FormulaWorkbookMode,
};
use crate::numbers::{all_digits, is_float_literal};
use crate::sheet::SheetView;
use crate::text::{ascii_lowered, first_index};

verus! {

/// The workbook of `formualizer_workbook`.
#[verifier::external_type_specification]
#[verifier::external_body]
pub struct ExWorkbook(Workbook);

/// The last row that the engine can take, counted from one.
pub const ENGINE_ROWS: u32 = 1_048_576;

/// The last column that the engine can take, counted from one.
pub const ENGINE_COLUMNS: u32 = 16_384;

/// How many sheets the engine can tell apart, besides the one that it begins with.
pub const ENGINE_SHEETS: usize = 65_535;

/// Something that was asked of an engine.
#[verifier::ext_equal]
pub enum EngineEvent {
    AddSheet(Seq<char>),
    SetFormula { sheet: Seq<char>, row: u32, col: u32, formula: Seq<char> },
    SetText { sheet: Seq<char>, row: u32, col: u32, text: Seq<char> },
    /// A number, by its decimal notation.
    SetNumber { sheet: Seq<char>, row: u32, col: u32, number: Seq<char> },
    SetBoolean { sheet: Seq<char>, row: u32, col: u32, value: bool },
    Prepare,
    /// A cell that was evaluated, with what the engine answered: a value or an error.
    Evaluate { sheet: Seq<char>, row: u32, col: u32, answer: Result<FormulaValueView, Seq<char>> },
}

/// What an engine answered.
pub open spec fn answer_view(answer: Result<FormulaValue, String>) -> Result<
    FormulaValueView,
    Seq<char>,
> {
    match answer {
        Ok(value) => Ok(value@),
        Err(message) => Err(message@),
    }
}

/// What was asked of an engine since it was made, in order.
pub uninterp spec fn engine_log(engine: &Workbook) -> Seq<EngineEvent>;

/// Whether an engine was made by `Workbook::new` and asked nothing since but to add
/// sheets and to set formulas and values. Such an engine puts formulas off until it
/// is asked to prepare.
pub uninterp spec fn told_only(engine: &Workbook) -> bool;

/// Why an engine that was told some things does not take a formula, if it does not.
pub uninterp spec fn set_formula_error(
    log: Seq<EngineEvent>,
    sheet: Seq<char>,
    row: u32,
    col: u32,
    formula: Seq<char>,
) -> Option<Seq<char>>;

/// Why an engine does not take a value for a cell of a sheet, if it does not.
pub uninterp spec fn set_value_error(sheet: Seq<char>) -> Option<Seq<char>>;

/// Whether an engine that was told some things fails to take the formulas in.
pub uninterp spec fn preparation_fails(log: Seq<EngineEvent>) -> bool;

/// Whether a sheet's name begins with a number in brackets, as the names of the sheets
/// of linked workbooks do.
pub open spec fn is_linked(sheet: Seq<char>) -> bool {
    &&& sheet.len() > 0
    &&& sheet[0] == '['
    &&& first_index(sheet, ']') matches Some(end) && end >= 2 && all_digits(
        sheet.subrange(1, end),
        10,
    )
}

/// Whether a sheet's name is made of ASCII characters and is not that of a sheet of a
/// linked workbook.
pub open spec fn is_plain_name(sheet: Seq<char>) -> bool {
    &&& forall|i: int| 0 <= i < sheet.len() ==> (#[trigger] sheet[i] as u32) < 128
    &&& !is_linked(sheet)
}

/// Whether no formula is among things that an engine is told.
pub open spec fn without_formulas(log: Seq<EngineEvent>) -> bool {
    forall|i: int| 0 <= i < log.len() ==> !(#[trigger] log[i] is SetFormula)
}

/// The cell that an engine is told something of.
pub open spec fn told_cell(event: EngineEvent) -> Option<(Seq<char>, u32, u32)> {
    match event {
        EngineEvent::SetFormula { sheet, row, col, formula } => Some((sheet, row, col)),
        EngineEvent::SetText { sheet, row, col, text } => Some((sheet, row, col)),
        EngineEvent::SetNumber { sheet, row, col, number } => Some((sheet, row, col)),
        EngineEvent::SetBoolean { sheet, row, col, value } => Some((sheet, row, col)),
        _ => None,
    }
}

/// The cell that an engine is told something of, as the engine knows it: without regard
/// to the case of its sheet's name.
pub open spec fn told_key(event: EngineEvent) -> Option<(Seq<char>, u32, u32)> {
    match told_cell(event) {
        Some((sheet, row, col)) => Some((ascii_lowered(sheet), row, col)),
        None => None,
    }
}

/// How many times an engine was asked to add a sheet.
pub open spec fn added_sheets(log: Seq<EngineEvent>) -> nat
    decreases log.len(),
{
    if log.len() == 0 {
        0
    } else {
        added_sheets(log.drop_last()) + if log.last() is AddSheet {
            1nat
        } else {
            0nat
        }
    }
}

/// Whether the sheet of a cell was added before the cell was told.
pub open spec fn sheet_is_known(log: Seq<EngineEvent>, index: int) -> bool {
    told_cell(log[index]) matches Some((sheet, row, col)) ==> exists|i: int|
        0 <= i < index && #[trigger] log[i] == EngineEvent::AddSheet(sheet)
}

/// Whether the sheet that is added, if one is, has a plain name.
pub open spec fn adds_plain_sheet(event: EngineEvent) -> bool {
    event matches EngineEvent::AddSheet(name) ==> is_plain_name(name)
}

/// Whether an engine was told of each cell once, on sheets that were added before, have
/// plain names and are not too many.
pub open spec fn told_in_order(log: Seq<EngineEvent>) -> bool {
    &&& forall|i: int, j: int|
        0 <= i < j < log.len() && #[trigger] told_key(log[i]) is Some ==> told_key(log[i])
            != #[trigger] told_key(log[j])
    &&& forall|i: int| 0 <= i < log.len() ==> #[trigger] sheet_is_known(log, i)
    &&& forall|i: int| 0 <= i < log.len() ==> adds_plain_sheet(#[trigger] log[i])
    &&& added_sheets(log) < ENGINE_SHEETS
}

/// Whether the engine can take a cell's coordinates.
pub open spec fn in_engine(row: u32, col: u32) -> bool {
    1 <= row <= ENGINE_ROWS && 1 <= col <= ENGINE_COLUMNS
}

/// `Workbook::new`: an engine that was asked nothing yet. It has the configuration
/// `WorkbookConfig::interactive`, which logs changes and puts formulas off, and takes the
/// rest from `EvalConfig::default`: no number of vertices, no memory, no time and none of
/// the `EvaluationBudgets` is limited.
#[verifier::external_body]
fn new_engine() -> (engine: Workbook)
    ensures
        engine_log(&engine) == Seq::<EngineEvent>::empty(),
        told_only(&engine),
{
    Workbook::new()
}

/// `Workbook::add_sheet`: adds an empty sheet, unless there is one of that name in
/// whatever case. It never fails.
#[verifier::external_body]
fn add_sheet(engine: &mut Workbook, name: &str) -> (done: Result<(), String>)
    ensures
        done is Ok,
        told_only(old(engine)) ==> told_only(final(engine)),
        engine_log(final(engine)) == engine_log(old(engine)).push(EngineEvent::AddSheet(name@)),
{
    engine.add_sheet(name).map_err(|error| error.to_string())
}

/// `Workbook::set_formula`: gives a cell a formula. Coordinates that the engine
/// cannot take would make it panic.
///
/// An engine that puts formulas off keeps the text as it is, unless the cell is in
/// its graph already: then the text is read at once, and refused if it is no
/// formula. What is in the graph depends on what the engine was told; of a cell that
/// it was never told, on a sheet that it can tell from the others, nothing is there.
/// It tells sheets apart by their names in lower case; what that is of other letters than
/// those of ASCII is not said.
#[verifier::external_body]
fn set_formula(engine: &mut Workbook, sheet: &str, row: u32, col: u32, formula: &str) -> (done:
    Result<(), String>)
    requires
        in_engine(row, col),
    ensures
        engine_log(final(engine)) == engine_log(old(engine)).push(
            EngineEvent::SetFormula { sheet: sheet@, row, col, formula: formula@ },
        ),
        told_only(old(engine)) ==> told_only(final(engine)),
        told_only(old(engine)) ==> match done {
            Ok(()) => set_formula_error(engine_log(old(engine)), sheet@, row, col, formula@) is None,
            Err(message) => set_formula_error(engine_log(old(engine)), sheet@, row, col, formula@)
                == Some(message@),
        },
        told_only(old(engine)) && told_in_order(engine_log(final(engine))) ==> done is Ok,
{
    engine.set_formula(sheet, row, col, formula).map_err(|error| error.to_string())
}

/// `Workbook::set_value` with a text: gives a cell a text. An engine that keeps a
/// log of its changes, as one made by `Workbook::new` does, refuses that on the sheets of
/// linked workbooks only: the edit itself is made through `Engine::edit_with_logger`, which
/// fails on changes of defined names alone, and looks at no limit.
#[verifier::external_body]
fn set_text(engine: &mut Workbook, sheet: &str, row: u32, col: u32, text: &str) -> (done: Result<
    (),
    String,
>)
    requires
        in_engine(row, col),
    ensures
        engine_log(final(engine)) == engine_log(old(engine)).push(
            EngineEvent::SetText { sheet: sheet@, row, col, text: text@ },
        ),
        told_only(old(engine)) ==> told_only(final(engine)),
        told_only(old(engine)) ==> match done {
            Ok(()) => set_value_error(sheet@) is None && !is_linked(sheet@),
            Err(message) => set_value_error(sheet@) == Some(message@) && is_linked(sheet@),
        },
{
    engine.set_value(sheet, row, col, LiteralValue::Text(text.to_owned())).map_err(
        |error| error.to_string(),
    )
}

/// `Workbook::set_value` with a number: gives a cell the number that a decimal
/// notation stands for, or an error value if that is not finite, and is refused where a
/// text is. Another text than a number, as std reads it, is an error, of which the engine
/// hears nothing; what the error says is left open.
#[verifier::external_body]
fn set_number(engine: &mut Workbook, sheet: &str, row: u32, col: u32, number: &str) -> (done:
    Result<(), String>)
    requires
        in_engine(row, col),
    ensures
        engine_log(final(engine)) == if is_float_literal(number@) {
            engine_log(old(engine)).push(
                EngineEvent::SetNumber { sheet: sheet@, row, col, number: number@ },
            )
        } else {
            engine_log(old(engine))
        },
        told_only(old(engine)) ==> told_only(final(engine)),
        told_only(old(engine)) && is_float_literal(number@) ==> match done {
            Ok(()) => set_value_error(sheet@) is None && !is_linked(sheet@),
            Err(message) => set_value_error(sheet@) == Some(message@) && is_linked(sheet@),
        },
        !is_float_literal(number@) ==> done is Err,
{
    match number.parse() {
        Ok(number) => engine.set_value(sheet, row, col, LiteralValue::Number(number)).map_err(
            |error| error.to_string(),
        ),
        Err(error) => Err(error.to_string()),
    }
}

/// `Workbook::set_value` with a truth value: gives a cell a truth value, and is refused
/// where a text is.
#[verifier::external_body]
fn set_boolean(engine: &mut Workbook, sheet: &str, row: u32, col: u32, value: bool) -> (done:
    Result<(), String>)
    requires
        in_engine(row, col),
    ensures
        engine_log(final(engine)) == engine_log(old(engine)).push(
            EngineEvent::SetBoolean { sheet: sheet@, row, col, value },
        ),
        told_only(old(engine)) ==> told_only(final(engine)),
        told_only(old(engine)) ==> match done {
            Ok(()) => set_value_error(sheet@) is None && !is_linked(sheet@),
            Err(message) => set_value_error(sheet@) == Some(message@) && is_linked(sheet@),
        },
{
    engine.set_value(sheet, row, col, LiteralValue::Boolean(value)).map_err(
        |error| error.to_string(),
    )
}

/// `Workbook::prepare_graph_all`: takes in the formulas of all sheets. An engine
/// made by `Workbook::new` takes a text that is no formula for an error value, and fails
/// if the references of a formula cannot be taken in; without formulas it does not fail.
/// Work and time are checked on the way, but an engine made by `Workbook::new` has no limit
/// of either. It goes through the sheets in no fixed order, so that nothing is said of which
/// failure is reported.
#[verifier::external_body]
fn prepare(engine: &mut Workbook) -> (done: Result<(), String>)
    ensures
        told_only(old(engine)) ==> (done is Err <==> preparation_fails(engine_log(old(engine)))),
        told_only(old(engine)) && without_formulas(engine_log(old(engine))) ==> done is Ok,
        engine_log(final(engine)) == engine_log(old(engine)).push(EngineEvent::Prepare),
{
    engine.prepare_graph_all().map_err(|error| error.to_string())
}

/// `Workbook::evaluate_cell`: the value of a cell, which is logged as the answer. Numbers
/// that the functions of a formula cannot take, such as dates beyond the calendar, make
/// error values. Formulas may ask for the time or for a random number, so that nothing is
/// said of which value it is.
#[verifier::external_body]
fn evaluate_cell(engine: &mut Workbook, sheet: &str, row: u32, col: u32) -> (value: Result<
    FormulaValue,
    String,
>)
    requires
        in_engine(row, col),
    ensures
        engine_log(final(engine)) == engine_log(old(engine)).push(
            EngineEvent::Evaluate { sheet: sheet@, row, col, answer: answer_view(value) },
        ),
{
    Ok(match engine.evaluate_cell(sheet, row, col).map_err(|error| error.to_string())? {
        LiteralValue::Empty => FormulaValue::Empty,
        LiteralValue::Int(value) => FormulaValue::Int(value),
        LiteralValue::Number(value) => FormulaValue::Number(value.to_bits()),
        LiteralValue::Boolean(value) => FormulaValue::Boolean(value),
        LiteralValue::Text(text) => FormulaValue::Text(text),
        LiteralValue::Date(value) => FormulaValue::Date(value.to_string()),
        LiteralValue::DateTime(value) => FormulaValue::DateTime(value.to_string()),
        LiteralValue::Time(value) => FormulaValue::Time(value.to_string()),
        LiteralValue::Duration(value) => FormulaValue::Duration(value.to_string()),
        LiteralValue::Array(_) => FormulaValue::Array,
        LiteralValue::Pending => FormulaValue::Pending,
        LiteralValue::Error(_) => FormulaValue::Error,
    })
}

/// What the engine is asked for a step, given the decimal notation of the number
/// that the step holds, if it holds one.
pub open spec fn event_of(step: EngineStepView, number: Seq<char>) -> EngineEvent {
    match step {
        EngineStepView::AddSheet(name) => EngineEvent::AddSheet(name),
        EngineStepView::SetFormula { sheet, row, col, formula } => EngineEvent::SetFormula {
            sheet,
            row,
            col,
            formula,
        },
        EngineStepView::SetValue { sheet, row, col, value } => match value {
            FormulaLiteralView::Text(text) => EngineEvent::SetText { sheet, row, col, text },
            FormulaLiteralView::Number(_) => EngineEvent::SetNumber { sheet, row, col, number },
            FormulaLiteralView::Boolean(value) => EngineEvent::SetBoolean { sheet, row, col, value },
        },
    }
}

/// What the engine is asked for steps.
pub open spec fn events_of(steps: Seq<EngineStepView>, numbers: Seq<Seq<char>>) -> Seq<EngineEvent> {
    Seq::new(steps.len(), |i: int| event_of(steps[i], numbers[i]))
}

/// Whether the engine can take the coordinates of a step.
pub open spec fn step_fits(step: EngineStepView) -> bool {
    match step {
        EngineStepView::AddSheet(_) => true,
        EngineStepView::SetFormula { sheet, row, col, formula } => in_engine(row, col),
        EngineStepView::SetValue { sheet, row, col, value } => in_engine(row, col),
    }
}

/// Whether the engine can take the coordinates of all steps.
pub open spec fn plan_fits(plan: FormulaPlanView) -> bool {
    forall|i: int| 0 <= i < plan.steps.len() ==> step_fits(#[trigger] plan.steps[i])
}

/// Whether the engine can take the coordinates of all steps.
pub fn fits_engine(plan: &FormulaPlan) -> (fits: bool)
    ensures
        fits == plan_fits(plan@),
{
    let mut index: usize = 0;
    while index < plan.steps.len()
        invariant
            index <= plan.steps@.len(),
            forall|i: int| 0 <= i < index ==> step_fits(#[trigger] plan@.steps[i]),
        decreases plan.steps@.len() - index,
    {
        assert(plan@.steps[index as int] == plan.steps@[index as int]@);
        let (row, col): (u32, u32) = match &plan.steps[index] {
            EngineStep::AddSheet(_) => (1, 1),
            EngineStep::SetFormula { row, col, .. } => (*row, *col),
            EngineStep::SetValue { row, col, .. } => (*row, *col),
        };
        if row < 1 || row > ENGINE_ROWS || col < 1 || col > ENGINE_COLUMNS {
            return false;
        }
        index += 1;
    }
    true
}

/// Why an engine that was told some things does not take another, if it is a formula or
/// a value that it does not take.
pub open spec fn refusal(log: Seq<EngineEvent>, event: EngineEvent) -> Option<Seq<char>> {
    match event {
        EngineEvent::AddSheet(_) => None,
        EngineEvent::SetFormula { sheet, row, col, formula } => set_formula_error(
            log,
            sheet,
            row,
            col,
            formula,
        ),
        _ => match told_cell(event) {
            Some((sheet, row, col)) => set_value_error(sheet),
            None => None,
        },
    }
}

/// Whether something is a number that is not written as one.
pub open spec fn is_no_number(event: EngineEvent) -> bool {
    event matches EngineEvent::SetNumber { sheet, row, col, number } && !is_float_literal(number)
}

/// Whether an engine that was told some things cannot be told another.
pub open spec fn refused(log: Seq<EngineEvent>, event: EngineEvent) -> bool {
    is_no_number(event) || refusal(log, event) is Some
}

/// A cell that is told in order is on a sheet of a plain name.
proof fn lemma_sheet_is_plain(log: Seq<EngineEvent>, index: int)
    requires
        told_in_order(log),
        0 <= index < log.len(),
    ensures
        told_cell(log[index]) matches Some((sheet, row, col)) ==> is_plain_name(sheet),
{
    if let Some((sheet, row, col)) = told_cell(log[index]) {
        assert(sheet_is_known(log, index));
        let i = choose|i: int|
            0 <= i < index && #[trigger] log[i] == EngineEvent::AddSheet(sheet);
        assert(adds_plain_sheet(log[i]));
    }
}

/// Tells the engine one thing. It takes everything but a number that is not written
/// as one and what it refuses, and it refuses nothing while it is told of each cell once,
/// on sheets of plain names.
fn tell(engine: &mut Workbook, step: &EngineStep, number: &str) -> (done: Result<(), String>)
    requires
        step_fits(step@),
    ensures
        engine_log(final(engine)) == if is_no_number(event_of(step@, number@)) {
            engine_log(old(engine))
        } else {
            engine_log(old(engine)).push(event_of(step@, number@))
        },
        told_only(old(engine)) ==> {
            &&& told_only(final(engine))
            &&& (done is Err <==> refused(engine_log(old(engine)), event_of(step@, number@)))
            &&& !is_no_number(event_of(step@, number@)) ==> match done {
                Ok(()) => true,
                Err(message) => refusal(
                    engine_log(old(engine)),
                    event_of(step@, number@),
                ) == Some(message@),
            }
            &&& told_in_order(engine_log(final(engine))) && !is_no_number(event_of(step@, number@))
                ==> done is Ok
        },
{
    let done = match step {
        EngineStep::AddSheet(name) => add_sheet(engine, name.as_str()),
        EngineStep::SetFormula { sheet, row, col, formula } => set_formula(
            engine,
            sheet.as_str(),
            *row,
            *col,
            formula.as_str(),
        ),
        EngineStep::SetValue { sheet, row, col, value } => match value {
            FormulaLiteral::Text(text) => set_text(
                engine,
                sheet.as_str(),
                *row,
                *col,
                text.as_str(),
            ),
            FormulaLiteral::Number(_) => set_number(engine, sheet.as_str(), *row, *col, number),
            FormulaLiteral::Boolean(value) => set_boolean(
                engine,
                sheet.as_str(),
                *row,
                *col,
                *value,
            ),
        },
    };
    proof {
        let log = engine_log(engine);
        if told_in_order(log) && !is_no_number(event_of(step@, number@)) {
            lemma_sheet_is_plain(log, log.len() - 1);
        }
    }
    done
}

/// The contents of texts.
pub open spec fn texts_of(texts: Seq<String>) -> Seq<Seq<char>> {
    texts.map_values(|text: String| text@)
}

/// Whether one of several things cannot be told once the earlier ones were.
pub open spec fn refused_at(events: Seq<EngineEvent>, index: int) -> bool {
    refused(events.take(index), events[index])
}

/// Whether something is the first of several that cannot be told.
pub open spec fn first_refused(events: Seq<EngineEvent>, index: int) -> bool {
    &&& 0 <= index < events.len()
    &&& refused_at(events, index)
    &&& forall|i: int| 0 <= i < index ==> !#[trigger] refused_at(events, i)
}

/// Whether things can be told one after the other.
pub open spec fn all_taken(events: Seq<EngineEvent>) -> bool {
    forall|i: int| 0 <= i < events.len() ==> !#[trigger] refused_at(events, i)
}

/// Whether all numbers among several things are written as numbers.
pub open spec fn numbers_written(events: Seq<EngineEvent>) -> bool {
    forall|i: int| 0 <= i < events.len() ==> !is_no_number(#[trigger] events[i])
}

/// No more sheets are added by the first of several things than by all of them.
proof fn lemma_added_sheets(log: Seq<EngineEvent>, length: int)
    requires
        0 <= length <= log.len(),
    ensures
        added_sheets(log.take(length)) <= added_sheets(log),
    decreases log.len() - length,
{
    if length == log.len() {
        assert(log.take(length) == log);
    } else {
        lemma_added_sheets(log, length + 1);
        assert(log.take(length + 1).drop_last() == log.take(length));
    }
}

/// What is told in order is told in order up to any point.
proof fn lemma_told_in_order(log: Seq<EngineEvent>, length: int)
    requires
        0 <= length <= log.len(),
        told_in_order(log),
    ensures
        told_in_order(log.take(length)),
{
    lemma_added_sheets(log, length);
    let first = log.take(length);
    assert forall|i: int| 0 <= i < first.len() implies #[trigger] sheet_is_known(first, i) by {
        assert(sheet_is_known(log, i));
        if let Some((sheet, row, col)) = told_cell(log[i]) {
            let j = choose|j: int| 0 <= j < i && #[trigger] log[j] == EngineEvent::AddSheet(sheet);
            assert(first[j] == EngineEvent::AddSheet(sheet));
        }
    }
}

/// Makes an engine and tells it a workbook, given the decimal notation of the
/// number that each step holds. The first thing that it does not take is an error,
/// and so are a plan that ended at a coordinate that is too large and formulas that cannot
/// be taken in. A plan that tells of each cell once is taken, if its numbers are written as
/// numbers and its formulas, where it has some, can be taken in.
pub fn start_engine(plan: &FormulaPlan, numbers: &Vec<String>) -> (engine: Result<Workbook, String>)
    requires
        plan_fits(plan@),
        numbers@.len() == plan@.steps.len(),
    ensures
        engine is Ok <==> plan@.too_large is None && all_taken(
            events_of(plan@.steps, texts_of(numbers@)),
        ) && !preparation_fails(events_of(plan@.steps, texts_of(numbers@))),
        engine matches Ok(engine) ==> engine_log(&engine) == events_of(
            plan@.steps,
            texts_of(numbers@),
        ).push(EngineEvent::Prepare),
        engine matches Err(message) ==> ({
            let events = events_of(plan@.steps, texts_of(numbers@));
            &&& forall|i: int| #[trigger]
                first_refused(events, i) && !is_no_number(events[i]) ==> refusal(
                    events.take(i),
                    events[i],
                ) == Some(message@)
            &&& all_taken(events) && plan@.too_large is Some ==> message@
                == too_large_message_spec(plan@.too_large->0 as nat)
        }),
        ({
            let events = events_of(plan@.steps, texts_of(numbers@));
            told_in_order(events) && numbers_written(events) && plan@.too_large is None && (
            without_formulas(events) || !preparation_fails(events)) ==> engine is Ok
        }),
{
    let ghost events = events_of(plan@.steps, texts_of(numbers@));
    let mut engine = new_engine();
    let mut index: usize = 0;
    assert(engine_log(&engine) =~= events.take(0));
    while index < plan.steps.len()
        invariant
            index <= plan.steps@.len(),
            plan_fits(plan@),
            numbers@.len() == plan@.steps.len(),
            events == events_of(plan@.steps, texts_of(numbers@)),
            told_only(&engine),
            engine_log(&engine) == events.take(index as int),
            forall|i: int| 0 <= i < index ==> !#[trigger] refused_at(events, i),
        decreases plan.steps@.len() - index,
    {
        assert(plan@.steps[index as int] == plan.steps@[index as int]@);
        assert(texts_of(numbers@)[index as int] == numbers@[index as int]@);
        assert(events.take(index + 1) =~= events.take(index as int).push(events[index as int]));
        let told = tell(&mut engine, &plan.steps[index], numbers[index].as_str());
        assert(told is Err <==> refused_at(events, index as int));
        match told {
            Ok(()) => {},
            Err(message) => {
                proof {
                    if told_in_order(events) && numbers_written(events) {
                        lemma_told_in_order(events, index + 1);
                        assert(!is_no_number(events[index as int]));
                    }
                    assert forall|i: int| #[trigger] first_refused(events, i) implies i == index by {
                        if index < i {
                            assert(!refused_at(events, index as int));
                        }
                    }
                }
                return Err(message);
            },
        }
        index += 1;
    }
    assert(events.take(index as int) =~= events);
    if let Some(large) = plan.too_large {
        return Err(too_large_message(large));
    }
    match prepare(&mut engine) {
        Ok(()) => Ok(engine),
        Err(message) => Err(message),
    }
}

/// Whether the engine can take the coordinates of cells.
pub open spec fn cells_fit(cells: Seq<FormulaCell>) -> bool {
    forall|i: int|
        0 <= i < cells.len() ==> in_engine((#[trigger] cells[i]).engine_row, cells[i].engine_col)
}

/// Whether the engine can take the coordinates of cells.
pub fn cells_fit_engine(cells: &Vec<FormulaCell>) -> (fit: bool)
    ensures
        fit == cells_fit(cells@),
{
    let mut index: usize = 0;
    while index < cells.len()
        invariant
            index <= cells@.len(),
            forall|i: int|
                0 <= i < index ==> in_engine(
                    (#[trigger] cells@[i]).engine_row,
                    cells@[i].engine_col,
                ),
        decreases cells@.len() - index,
    {
        let cell: FormulaCell = cells[index];
        if cell.engine_row < 1 || cell.engine_row > ENGINE_ROWS || cell.engine_col < 1
            || cell.engine_col > ENGINE_COLUMNS {
            return false;
        }
        index += 1;
    }
    true
}

/// What the engine is asked for cells of a sheet, and what it answers to each.
pub open spec fn evaluations_of(
    sheet: Seq<char>,
    cells: Seq<FormulaCell>,
    values: Seq<Result<FormulaValue, String>>,
) -> Seq<EngineEvent> {
    Seq::new(
        cells.len(),
        |i: int|
            EngineEvent::Evaluate {
                sheet,
                row: cells[i].engine_row,
                col: cells[i].engine_col,
                answer: answer_view(values[i]),
            },
    )
}

/// Has the engine evaluate cells of a sheet, one after the other. The results are
/// what it answers, in the same order.
pub fn evaluate_cells(engine: &mut Workbook, sheet: &str, cells: &Vec<FormulaCell>) -> (values: Vec<
    Result<FormulaValue, String>,
>)
    requires
        cells_fit(cells@),
    ensures
        values@.len() == cells@.len(),
        engine_log(final(engine)) == engine_log(old(engine)) + evaluations_of(
            sheet@,
            cells@,
            values@,
        ),
{
    let ghost start = engine_log(engine);
    let mut values: Vec<Result<FormulaValue, String>> = Vec::new();
    let mut index: usize = 0;
    assert(start + evaluations_of(sheet@, cells@.take(0), values@) =~= start);
    while index < cells.len()
        invariant
            index <= cells@.len(),
            cells_fit(cells@),
            values@.len() == index,
            engine_log(engine) == start + evaluations_of(
                sheet@,
                cells@.take(index as int),
                values@,
            ),
        decreases cells@.len() - index,
    {
        let cell: FormulaCell = cells[index];
        let ghost before = values@;
        let ghost told = evaluations_of(sheet@, cells@.take(index as int), before);
        let value = evaluate_cell(engine, sheet, cell.engine_row, cell.engine_col);
        values.push(value);
        proof {
            let next = evaluations_of(sheet@, cells@.take(index + 1), values@);
            assert(next =~= told.push(next.last()));
            assert(start + next =~= (start + told).push(next.last()));
        }
        index += 1;
    }
    assert(cells@.take(index as int) =~= cells@);
    values
}

/// The cell that a step tells of.
spec fn step_cell(step: EngineStepView) -> Option<(Seq<char>, u32, u32)> {
    match step {
        EngineStepView::AddSheet(_) => None,
        EngineStepView::SetFormula { sheet, row, col, formula } => Some((sheet, row, col)),
        EngineStepView::SetValue { sheet, row, col, value } => Some((sheet, row, col)),
    }
}

/// Whether a cell comes before a place: on a sheet before the one at an index, or on
/// that sheet before a row and column.
spec fn comes_before(
    sheets: Seq<SheetView>,
    index: int,
    row: int,
    col: int,
    cell: (Seq<char>, u32, u32),
) -> bool {
    &&& 1 <= cell.1 && 1 <= cell.2
    &&& {
        ||| exists|i: int| 0 <= i < index && i < sheets.len() && #[trigger] sheets[i].name == cell.0
        ||| index < sheets.len() && sheets[index].name == cell.0 && (cell.1 <= row || (cell.1 == row
            + 1 && cell.2 <= col))
    }
}

/// Whether steps add all sheets and then tell of cells before a place, of each once.
spec fn steps_up_to(
    steps: Seq<EngineStepView>,
    sheets: Seq<SheetView>,
    index: int,
    row: int,
    col: int,
) -> bool {
    &&& sheets.len() <= steps.len()
    &&& forall|i: int|
        0 <= i < sheets.len() ==> #[trigger] steps[i] == EngineStepView::AddSheet(sheets[i].name)
    &&& forall|i: int|
        sheets.len() <= i < steps.len() ==> (#[trigger] step_cell(steps[i]) matches Some(cell)
            && comes_before(sheets, index, row, col, cell))
    &&& forall|i: int, j: int|
        sheets.len() <= i < j < steps.len() ==> #[trigger] step_cell(steps[i])
            != #[trigger] step_cell(steps[j])
}

/// Whether sheets have plain names that differ, not only in case.
pub open spec fn names_differ(sheets: Seq<SheetView>) -> bool {
    &&& forall|i: int| 0 <= i < sheets.len() ==> is_plain_name((#[trigger] sheets[i]).name)
    &&& forall|i: int, j: int|
        0 <= i < j < sheets.len() ==> ascii_lowered((#[trigger] sheets[i]).name) != ascii_lowered(
            (#[trigger] sheets[j]).name,
        )
}

/// Steps before a place come before a later one.
proof fn lemma_later_place(
    steps: Seq<EngineStepView>,
    sheets: Seq<SheetView>,
    index: int,
    row: int,
    col: int,
    next_index: int,
    next_row: int,
    next_col: int,
)
    requires
        steps_up_to(steps, sheets, index, row, col),
        0 <= index <= next_index,
        index < next_index || row < next_row || (row == next_row && col <= next_col),
    ensures
        steps_up_to(steps, sheets, next_index, next_row, next_col),
{
    assert forall|i: int| sheets.len() <= i < steps.len() implies (#[trigger] step_cell(
        steps[i],
    ) matches Some(cell) && comes_before(sheets, next_index, next_row, next_col, cell)) by {
        let cell = step_cell(steps[i])->0;
        assert(comes_before(sheets, index, row, col, cell));
        if exists|k: int| 0 <= k < index && k < sheets.len() && #[trigger] sheets[k].name == cell.0 {
            let k = choose|k: int|
                0 <= k < index && k < sheets.len() && #[trigger] sheets[k].name == cell.0;
            assert(0 <= k < next_index && sheets[k].name == cell.0);
        } else if index < next_index {
            assert(sheets[index].name == cell.0);
        }
    }
}

/// One more cell keeps the order.
proof fn lemma_cell_in_order(
    plan: FormulaPlanView,
    sheets: Seq<SheetView>,
    index: int,
    row: int,
    col: int,
    mode: FormulaWorkbookMode,
)
    requires
        steps_up_to(plan.steps, sheets, index, row, col),
        names_differ(sheets),
        0 <= index < sheets.len(),
        0 <= row,
        0 <= col,
    ensures
        steps_up_to(
            plan.after_cell(sheets[index], row, col, mode).steps,
            sheets,
            index,
            row,
            col + 1,
        ),
{
    lemma_later_place(plan.steps, sheets, index, row, col, index, row, col + 1);
    let steps = plan.after_cell(sheets[index], row, col, mode).steps;
    if plan.too_large is None {
        if let Ok(Some(step)) = cell_step(sheets[index], row, col, mode) {
            let cell = (sheets[index].name, (row + 1) as u32, (col + 1) as u32);
            assert(step_cell(step) == Some(cell));
            assert(steps == plan.steps.push(step));
            assert(comes_before(sheets, index, row, col + 1, cell));
            assert(!comes_before(sheets, index, row, col, cell));
            assert forall|i: int, j: int| sheets.len() <= i < j < steps.len() implies #[trigger] step_cell(
                steps[i],
            ) != #[trigger] step_cell(steps[j]) by {
                assert(step_cell(plan.steps[i]) == step_cell(steps[i]));
                if j < plan.steps.len() {
                    assert(step_cell(plan.steps[j]) == step_cell(steps[j]));
                }
            }
            assert forall|i: int| sheets.len() <= i < steps.len() implies (#[trigger] step_cell(
                steps[i],
            ) matches Some(told) && comes_before(sheets, index, row, col + 1, told)) by {
                if i < plan.steps.len() {
                    assert(step_cell(plan.steps[i]) == step_cell(steps[i]));
                }
            }
        }
    }
}

/// The cells of a row keep the order.
proof fn lemma_cells_in_order(
    plan: FormulaPlanView,
    sheets: Seq<SheetView>,
    index: int,
    row: int,
    cols: nat,
    mode: FormulaWorkbookMode,
)
    requires
        steps_up_to(plan.steps, sheets, index, row, 0),
        names_differ(sheets),
        0 <= index < sheets.len(),
        0 <= row,
    ensures
        steps_up_to(
            plan.after_cells(sheets[index], row, cols, mode).steps,
            sheets,
            index,
            row,
            cols as int,
        ),
    decreases cols,
{
    if cols > 0 {
        let before = (cols - 1) as nat;
        lemma_cells_in_order(plan, sheets, index, row, before, mode);
        lemma_cell_in_order(
            plan.after_cells(sheets[index], row, before, mode),
            sheets,
            index,
            row,
            cols - 1,
            mode,
        );
    }
}

/// The rows of a sheet keep the order.
proof fn lemma_rows_in_order(
    plan: FormulaPlanView,
    sheets: Seq<SheetView>,
    index: int,
    rows: nat,
    mode: FormulaWorkbookMode,
)
    requires
        steps_up_to(plan.steps, sheets, index, 0, 0),
        names_differ(sheets),
        0 <= index < sheets.len(),
    ensures
        steps_up_to(
            plan.after_rows(sheets[index], rows, mode).steps,
            sheets,
            index,
            rows as int,
            0,
        ),
    decreases rows,
{
    if rows > 0 {
        let sheet = sheets[index];
        let before = plan.after_rows(sheet, (rows - 1) as nat, mode);
        lemma_rows_in_order(plan, sheets, index, (rows - 1) as nat, mode);
        lemma_cells_in_order(before, sheets, index, rows - 1, sheet.col_count, mode);
        lemma_later_place(
            plan.after_rows(sheet, rows, mode).steps,
            sheets,
            index,
            rows - 1,
            sheet.col_count as int,
            index,
            rows as int,
            0,
        );
    }
}

/// The sheets of a workbook keep the order.
proof fn lemma_sheets_in_order(
    plan: FormulaPlanView,
    sheets: Seq<SheetView>,
    count: int,
    mode: FormulaWorkbookMode,
)
    requires
        steps_up_to(plan.steps, sheets, 0, 0, 0),
        names_differ(sheets),
        0 <= count <= sheets.len(),
    ensures
        steps_up_to(plan.after_sheets(sheets.take(count), mode).steps, sheets, count, 0, 0),
    decreases count,
{
    if count > 0 {
        let sheet = sheets[count - 1];
        lemma_sheets_in_order(plan, sheets, count - 1, mode);
        assert(sheets.take(count).drop_last() == sheets.take(count - 1));
        let before = plan.after_sheets(sheets.take(count - 1), mode);
        lemma_rows_in_order(before, sheets, count - 1, sheet.row_count, mode);
        lemma_later_place(
            plan.after_sheets(sheets.take(count), mode).steps,
            sheets,
            count - 1,
            sheet.row_count as int,
            0,
            count,
            0,
            0,
        );
    }
}

/// Sheets are added by the first things only, if cells are told behind them.
proof fn lemma_sheets_come_first(events: Seq<EngineEvent>, first: nat, length: int)
    requires
        0 <= length <= events.len(),
        forall|i: int| first <= i < events.len() ==> #[trigger] told_cell(events[i]) is Some,
    ensures
        added_sheets(events.take(length)) <= first,
        added_sheets(events.take(length)) <= length,
    decreases length,
{
    if length > 0 {
        lemma_sheets_come_first(events, first, length - 1);
        assert(events.take(length).drop_last() == events.take(length - 1));
        if first < length {
            assert(told_cell(events[length - 1]) is Some);
        }
    }
}

/// The plan for a workbook whose sheets have plain names that differ, not only in case,
/// and are not too many, tells of each cell once. So an engine can be told it, if its
/// numbers are written as numbers and no coordinate is too large.
pub proof fn workbooks_are_told_in_order(
    sheets: Seq<SheetView>,
    mode: FormulaWorkbookMode,
    numbers: Seq<Seq<char>>,
)
    requires
        names_differ(sheets),
        sheets.len() < ENGINE_SHEETS,
    ensures
        told_in_order(events_of(workbook_plan(sheets, mode).steps, numbers)),
{
    let start = FormulaPlanView {
        steps: sheets.map_values(|sheet: SheetView| EngineStepView::AddSheet(sheet.name)),
        too_large: None,
    };
    let count = sheets.len() as int;
    lemma_sheets_in_order(start, sheets, count, mode);
    assert(sheets.take(count) == sheets);
    let steps = workbook_plan(sheets, mode).steps;
    let events = events_of(steps, numbers);
    assert forall|i: int| 0 <= i < events.len() implies #[trigger] told_cell(events[i])
        == step_cell(steps[i]) by {}
    assert forall|i: int| 0 <= i < events.len() implies #[trigger] sheet_is_known(events, i) by {
        assert(told_cell(events[i]) == step_cell(steps[i]));
        if i >= count {
            let cell = step_cell(steps[i])->0;
            assert(comes_before(sheets, count, 0, 0, cell));
            let k = choose|k: int|
                0 <= k < count && k < sheets.len() && #[trigger] sheets[k].name == cell.0;
            assert(steps[k] == EngineStepView::AddSheet(sheets[k].name));
            assert(events[k] == EngineEvent::AddSheet(cell.0));
        } else {
            assert(steps[i] == EngineStepView::AddSheet(sheets[i].name));
        }
    }
    assert forall|i: int, j: int|
        0 <= i < j < events.len() && #[trigger] told_key(events[i]) is Some implies told_key(
        events[i],
    ) != #[trigger] told_key(events[j]) by {
        if i < count {
            assert(steps[i] == EngineStepView::AddSheet(sheets[i].name));
        }
        assert(told_cell(events[i]) == step_cell(steps[i]));
        assert(told_cell(events[j]) == step_cell(steps[j]));
        let first = step_cell(steps[i])->0;
        let second = step_cell(steps[j])->0;
        assert(comes_before(sheets, count, 0, 0, first));
        assert(comes_before(sheets, count, 0, 0, second));
        let a = choose|k: int|
            0 <= k < count && k < sheets.len() && #[trigger] sheets[k].name == first.0;
        let b = choose|k: int|
            0 <= k < count && k < sheets.len() && #[trigger] sheets[k].name == second.0;
        if ascii_lowered(first.0) == ascii_lowered(second.0) {
            assert(a == b);
        }
    }
    assert forall|i: int| 0 <= i < events.len() implies adds_plain_sheet(#[trigger] events[i]) by {
        if i < count {
            assert(steps[i] == EngineStepView::AddSheet(sheets[i].name));
        } else {
            assert(told_cell(events[i]) == step_cell(steps[i]));
        }
    }
    assert(events.take(events.len() as int) == events);
    lemma_sheets_come_first(events, sheets.len(), events.len() as int);
}

/// The engine is told the steps of a plan one for one and in their order: a sheet by its name, a
/// formula by its text, a value by what it is, each at its own cell, and a number as it was
/// written out for that step.
pub proof fn the_engine_hears_the_steps(
    steps: Seq<EngineStepView>,
    numbers: Seq<Seq<char>>,
    index: int,
)
    requires
        0 <= index < steps.len() == numbers.len(),
    ensures
        ({
            let event = events_of(steps, numbers)[index];
            &&& events_of(steps, numbers).len() == steps.len()
            &&& steps[index] matches EngineStepView::AddSheet(name) ==> event
                == EngineEvent::AddSheet(name)
            &&& steps[index] matches EngineStepView::SetFormula { sheet, row, col, formula }
                ==> event matches EngineEvent::SetFormula { sheet: s, row: r, col: c, formula: f }
                && s == sheet && r == row && c == col && f == formula
            &&& steps[index] matches EngineStepView::SetValue { sheet, row, col, value }
                ==> told_cell(event) == Some((sheet, row, col)) && match value {
                FormulaLiteralView::Text(told) => event matches EngineEvent::SetText {
                    text,
                    ..
                } && text == told,
                FormulaLiteralView::Number(_) => event matches EngineEvent::SetNumber {
                    number,
                    ..
                } && number == numbers[index],
                FormulaLiteralView::Boolean(told) => event matches EngineEvent::SetBoolean {
                    value,
                    ..
                } && value == told,
            }
        }),
{
}

} // verus!
