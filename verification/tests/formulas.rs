//! The formula engine: missing values and audits.

use spread::audit::{audit_report, formula_audit_for_sheet, plan_audit, FormulaAudit};
use spread::cell::{CellData, CellRawValue};
use spread::display::{NumberRequest, SheetNumber, WrittenNumber};
use spread::engine::{cells_fit_engine, evaluate_cells, fits_engine, start_engine};
use spread::formats::{CellDisplayFormat, NumberLayout, NumberText};
use spread::formulas::{
    build_formula_workbook, calculate_missing_formula_values, calculated_text, coord, coord_u32,
    formula_number_request, formula_value_to_cell_value, formula_with_equals,
    missing_formula_cells, needs_evaluation, too_large_message, EngineStep, Evaluation,
    FormulaLiteral, FormulaPlan, FormulaValue, FormulaWorkbookMode,
};
use spread::pixels::Pixels;
use spread::sheet::SheetData;

fn px(length: f32) -> Pixels {
    Pixels { bits: length.to_bits() }
}

fn sheet(name: &str, rows: Vec<Vec<CellData>>) -> SheetData {
    let heights = rows.iter().map(|_| px(24.0)).collect();
    SheetData::new(
        Some(name.to_owned()),
        rows,
        Vec::new(),
        &Vec::new(),
        px(120.0),
        px(24.0),
        &heights,
    )
}

fn number_cell(value: &str, number: f64) -> CellData {
    CellData {
        value: value.to_owned(),
        raw_value: CellRawValue::Number { bits: number.to_bits() },
        ..Default::default()
    }
}

fn written(request: Option<NumberRequest>) -> WrittenNumber {
    let Some(request) = request else {
        return WrittenNumber {
            bits: 0,
            text: NumberText { negative: false, digits: String::new() },
        };
    };
    let number = match request.number {
        SheetNumber::Int(number) => number as f64,
        SheetNumber::Float(bits) => f64::from_bits(bits),
    };
    let digits = match request.layout {
        NumberLayout::Plain => number.to_string(),
        NumberLayout::Fixed { decimals } => format!("{:.decimals$}", number.abs()),
        NumberLayout::Percent { decimals } => format!("{:.decimals$}", number * 100.0),
    };
    WrittenNumber { bits: number.to_bits(), text: NumberText { negative: number.is_sign_negative(), digits } }
}

fn evaluation(
    value: Result<FormulaValue, String>,
    format: Option<CellDisplayFormat>,
) -> Evaluation {
    match value {
        Ok(value) => {
            let number = written(formula_number_request(&value, format));
            Evaluation::Value(value, number)
        }
        Err(message) => Evaluation::Failed(message),
    }
}

fn step_numbers(plan: &FormulaPlan) -> Vec<String> {
    plan.steps
        .iter()
        .map(|step| match step {
            EngineStep::SetValue { value: FormulaLiteral::Number(bits), .. } => {
                f64::from_bits(*bits).to_string()
            }
            _ => String::new(),
        })
        .collect()
}

fn fill(sheets: &mut Vec<SheetData>) {
    let plan = build_formula_workbook(sheets, FormulaWorkbookMode::MissingOnly);
    assert!(fits_engine(&plan));
    let mut engine = start_engine(&plan, &step_numbers(&plan)).unwrap();
    for sheet in sheets {
        let cells = missing_formula_cells(sheet);
        assert!(cells_fit_engine(&cells));
        let values = evaluate_cells(&mut engine, sheet.name(), &cells);
        let evaluations = values
            .into_iter()
            .zip(&cells)
            .map(|(value, cell)| {
                evaluation(value, sheet.cell_data(cell.row, cell.col).display_format)
            })
            .collect();
        calculate_missing_formula_values(sheet, &evaluations);
    }
}

fn audit(sheets: &Vec<SheetData>, sheet_ix: usize) -> FormulaAudit {
    let plan = build_formula_workbook(sheets, FormulaWorkbookMode::AllFormulas);
    assert!(fits_engine(&plan));
    let mut engine = start_engine(&plan, &step_numbers(&plan)).unwrap();
    let sheet = &sheets[sheet_ix];
    let audit_plan = plan_audit(sheet);
    assert!(audit_plan.too_large.is_none() && cells_fit_engine(&audit_plan.cells));
    let values = evaluate_cells(&mut engine, sheet.name(), &audit_plan.cells);
    let calculated = values
        .into_iter()
        .zip(&audit_plan.cells)
        .map(|(value, cell)| {
            let format = sheet.cell_data(cell.row, cell.col).display_format;
            calculated_text(&evaluation(value, format), format)
        })
        .collect();
    formula_audit_for_sheet(sheet, &calculated)
}

#[test]
fn calculates_missing_formula_cache_values() {
    let mut sheets = vec![
        sheet("Inputs", vec![vec![number_cell("2", 2.0), number_cell("3", 3.0)]]),
        sheet(
            "Summary",
            vec![vec![
                CellData {
                    formula: Some("'Inputs'!A1+'Inputs'!B1".to_owned()),
                    ..Default::default()
                },
                CellData {
                    formula: Some("A1*4".to_owned()),
                    display_format: Some(CellDisplayFormat::Currency { decimals: 0 }),
                    ..Default::default()
                },
            ]],
        ),
    ];
    assert!(needs_evaluation(&sheets));

    fill(&mut sheets);

    assert_eq!(sheets[1].cell(0, 0), "5");
    assert_eq!(sheets[1].cell(0, 1), "$20");
    assert_eq!(
        sheets[1].cell_data(0, 1).raw_value,
        CellRawValue::Number { bits: 20.0f64.to_bits() }
    );
    assert!(!needs_evaluation(&sheets));
}

#[test]
fn filling_leaves_other_cells_alone() {
    let mut cached = number_cell("7", 7.0);
    cached.formula = Some("1+1".to_owned());
    let text = CellData {
        value: "hello".to_owned(),
        raw_value: CellRawValue::Text,
        ..Default::default()
    };
    let joined = CellData {
        formula: Some("B1&\"!\"".to_owned()),
        ..Default::default()
    };
    let flag = CellData {
        value: "true".to_owned(),
        raw_value: CellRawValue::Bool(true),
        ..Default::default()
    };
    let negated = CellData { formula: Some("NOT(D1)".to_owned()), ..Default::default() };
    let mut sheets = vec![sheet("S", vec![vec![cached, text, joined, flag, negated]])];
    fill(&mut sheets);
    assert_eq!(sheets[0].cell(0, 0), "7");
    assert_eq!(sheets[0].cell(0, 1), "hello");
    assert_eq!(sheets[0].cell(0, 2), "hello!");
    assert_eq!(sheets[0].cell_data(0, 2).raw_value, CellRawValue::Text);
    assert_eq!(sheets[0].cell(0, 3), "true");
    assert_eq!(sheets[0].cell(0, 4), "false");
    assert_eq!(sheets[0].cell_data(0, 4).raw_value, CellRawValue::Bool(false));
}

#[test]
fn audits_formula_cache_inconsistencies() {
    let with_formula = |value: &str, number: f64, formula: &str| {
        let mut cell = number_cell(value, number);
        cell.formula = Some(formula.to_owned());
        cell
    };
    let mut uncached = with_formula("5", 5.0, "'Inputs'!A1+'Inputs'!B1");
    uncached.formula_value_was_uncached = true;
    let sheets = vec![
        sheet("Inputs", vec![vec![number_cell("2", 2.0), number_cell("3", 3.0)]]),
        sheet(
            "Summary",
            vec![vec![
                with_formula("5", 5.0, "'Inputs'!A1+'Inputs'!B1"),
                with_formula("999", 999.0, "A1*4"),
                uncached,
            ]],
        ),
    ];

    let audit = audit(&sheets, 1);

    assert_eq!(audit.sheet, "Summary");
    assert_eq!(audit.uncached_values, 1);
    assert_eq!(audit.cached_matches, 1);
    assert_eq!(audit.inconsistencies.len(), 1);
    assert_eq!(audit.inconsistencies[0].cell, "B1");
    assert_eq!(audit.inconsistencies[0].formula, "A1*4");
    assert_eq!(audit.inconsistencies[0].cached_value, "999");
    assert_eq!(audit.inconsistencies[0].calculated_value, "20");
    assert_eq!(
        audit_report(&audit),
        "<sheet name=\"Summary\">\n  <uncached_values>1</uncached_values>\n  <cached_matches>1</cached_matches>\n  <inconsistencies count=\"1\">\n    <inconsistency cell=\"B1\">\n      <formula>A1*4</formula>\n      <cached_value>999</cached_value>\n      <calculated_value>20</calculated_value>\n    </inconsistency>\n  </inconsistencies>\n</sheet>\n"
    );
}

#[test]
fn reports_of_clean_sheets_are_short() {
    let audit = audit(&vec![sheet("A&B", vec![vec![number_cell("2", 2.0)]])], 0);
    assert_eq!(
        audit_report(&audit),
        "<sheet name=\"A&amp;B\">\n  <uncached_values>0</uncached_values>\n  <cached_matches>0</cached_matches>\n</sheet>\n"
    );
}

#[test]
fn failures_and_odd_values_have_texts() {
    assert_eq!(calculated_text(&Evaluation::Failed("boom".to_owned()), None), "<error: boom>");
    for value in [FormulaValue::Array, FormulaValue::Pending, FormulaValue::Error] {
        let unsupported = Evaluation::Value(value, written(None));
        assert_eq!(calculated_text(&unsupported, None), "<unsupported value>");
    }
    let format = CellDisplayFormat::Currency { decimals: 1 };
    let int = FormulaValue::Int(-1200);
    let number = written(formula_number_request(&int, Some(format)));
    assert_eq!(
        formula_value_to_cell_value(&int, Some(format), &number),
        Some((
            "-$1,200.0".to_owned(),
            CellRawValue::Number { bits: (-1200.0f64).to_bits() }
        ))
    );
    for moment in [
        FormulaValue::Date("2026-01-01".to_owned()),
        FormulaValue::DateTime("2026-01-01".to_owned()),
        FormulaValue::Time("2026-01-01".to_owned()),
        FormulaValue::Duration("2026-01-01".to_owned()),
    ] {
        assert_eq!(
            formula_value_to_cell_value(&moment, None, &number),
            Some(("2026-01-01".to_owned(), CellRawValue::DateTime))
        );
    }
    assert_eq!(
        formula_value_to_cell_value(&FormulaValue::Empty, None, &number),
        Some((String::new(), CellRawValue::Empty))
    );
}

#[test]
fn engines_are_told_no_more_than_they_can_take() {
    assert_eq!(formula_with_equals("A1"), "=A1");
    assert_eq!(formula_with_equals("=A1"), "=A1");
    assert_eq!(coord(0), Ok(1));
    assert_eq!(coord_u32(u32::MAX as usize - 1), Some(u32::MAX));
    assert_eq!(coord_u32(u32::MAX as usize), None);
    assert_eq!(coord(u32::MAX as usize), Err(u32::MAX as usize));
    assert_eq!(too_large_message(7), "cell coordinate 7 is too large");
    let far = FormulaPlan {
        steps: vec![EngineStep::SetFormula {
            sheet: "S".to_owned(),
            row: 1_048_577,
            col: 1,
            formula: "=1".to_owned(),
        }],
        too_large: None,
    };
    assert!(!fits_engine(&far));
    let ended = FormulaPlan { steps: Vec::new(), too_large: Some(9) };
    assert_eq!(
        start_engine(&ended, &Vec::new()).err(),
        Some("cell coordinate 9 is too large".to_owned())
    );
    let no_number = FormulaPlan {
        steps: vec![EngineStep::SetValue {
            sheet: "S".to_owned(),
            row: 1,
            col: 1,
            value: FormulaLiteral::Number(0),
        }],
        too_large: None,
    };
    assert!(start_engine(&no_number, &vec!["x".to_owned()]).is_err());
}

#[test]
fn engines_refuse_unreadable_formulas_of_told_cells_only() {
    let formula = |formula: &str| EngineStep::SetFormula {
        sheet: "S".to_owned(),
        row: 1,
        col: 1,
        formula: formula.to_owned(),
    };
    let text = || EngineStep::SetValue {
        sheet: "S".to_owned(),
        row: 1,
        col: 1,
        value: FormulaLiteral::Text("t".to_owned()),
    };
    let start = |steps: Vec<EngineStep>| {
        let plan = FormulaPlan { steps, too_large: None };
        start_engine(&plan, &step_numbers(&plan)).is_ok()
    };
    let sheet = || EngineStep::AddSheet("S".to_owned());
    assert!(start(vec![sheet(), formula("=1+(")]));
    assert!(start(vec![sheet(), formula("=1+("), formula("=(")]));
    assert!(start(vec![sheet(), text(), formula("=1+1")]));
    assert!(!start(vec![sheet(), text(), formula("=1+(")]));
    assert!(start(vec![sheet(), sheet(), text(), text()]));
    assert!(start(Vec::new()));
}

#[test]
fn engines_take_numbers_as_they_are_written() {
    let plan = FormulaPlan {
        steps: vec![EngineStep::SetValue {
            sheet: "S".to_owned(),
            row: 1,
            col: 1,
            value: FormulaLiteral::Number(0),
        }],
        too_large: None,
    };
    for number in ["1", "-2.5e3", ".5", "5.", "NaN", "-inf", "1e400"] {
        assert!(start_engine(&plan, &vec![number.to_owned()]).is_ok(), "{number}");
    }
    for number in ["", ".", "e5", "1,5", " 1", "0x1"] {
        assert!(start_engine(&plan, &vec![number.to_owned()]).is_err(), "{number}");
    }
}

#[test]
fn engines_tell_sheets_apart_without_regard_to_case() {
    let formula = |sheet: &str, formula: &str| EngineStep::SetFormula {
        sheet: sheet.to_owned(),
        row: 1,
        col: 1,
        formula: formula.to_owned(),
    };
    let text = |sheet: &str| EngineStep::SetValue {
        sheet: sheet.to_owned(),
        row: 1,
        col: 1,
        value: FormulaLiteral::Text("t".to_owned()),
    };
    let start = |steps: Vec<EngineStep>| {
        let plan = FormulaPlan { steps, too_large: None };
        start_engine(&plan, &step_numbers(&plan)).is_ok()
    };
    let sheet = |name: &str| EngineStep::AddSheet(name.to_owned());
    assert!(start(vec![sheet("Data"), sheet("More"), text("Data"), formula("More", "=1+(")]));
    assert!(start(vec![sheet("Data"), sheet("data"), text("Data"), text("data")]));
    assert!(start(vec![sheet("[1]Data"), formula("[1]Data", "=1")]));
    assert!(!start(vec![sheet("[1]Data"), text("[1]Data")]));
    assert!(start(vec![sheet("[]Data"), text("[]Data")]));
    assert!(start(vec![sheet("[a]Data"), text("[a]Data")]));
    assert!(start(vec![sheet("[1Data"), text("[1Data")]));
    assert!(!start(vec![sheet("S"), formula("S", "=SUM(B2:A1)")]));
}

#[test]
fn dates_beyond_the_calendar_are_error_values() {
    let formula = |formula: &str| CellData {
        formula: Some(formula.to_owned()),
        formula_value_was_uncached: true,
        ..Default::default()
    };
    let mut sheets = vec![sheet(
        "S",
        vec![vec![formula("=YEAR(1E+15)"), formula("=YEAR(45306)"), formula("=1E+15*1E+300")]],
    )];
    fill(&mut sheets);
    assert_eq!(sheets[0].cell_data(0, 1).value, "2024");
    assert_ne!(sheets[0].cell_data(0, 0).value, "2024");
}
