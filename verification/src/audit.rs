//! Audits: cached formula values held against calculated ones.

use vstd::prelude::*;

use crate::cell::CellView;
use crate::escape::{
    append_xml_attr, append_xml_text, escaped_text_stays_in_place, escaped_xml_attr,
    escaped_xml_text, escaping_is_undone_by_reading, unescaped,
};
use crate::export::{
    concatenated, lemma_counted_pieces, lemma_pieces_append, lemma_pieces_single, lemma_pieces_sum,
    strings_view,
};
use crate::formulas::{comes_before, coord, engine_position, FormulaCell};
use crate::lines::pieces;
use crate::numbers::{decimal, digits_denote_their_number, is_digit_of, push_decimal};
use crate::references::{cell_label, cell_label_spec};
use crate::sheet::{SheetData, SheetView};
use crate::text::{begins_with, first_index, lemma_first_index_is, same_text};

verus! {

/// A cached value that differs from the calculated one.
#[derive(Debug)]
pub struct FormulaInconsistency {
    /// The cell's label.
    pub cell: String,
    pub formula: String,
    pub cached_value: String,
    pub calculated_value: String,
}

/// The mathematical content of a [`FormulaInconsistency`].
#[verifier::ext_equal]
pub struct InconsistencyView {
    pub cell: Seq<char>,
    pub formula: Seq<char>,
    pub cached_value: Seq<char>,
    pub calculated_value: Seq<char>,
}

impl View for FormulaInconsistency {
    type V = InconsistencyView;

    open spec fn view(&self) -> InconsistencyView {
        InconsistencyView {
            cell: self.cell@,
            formula: self.formula@,
            cached_value: self.cached_value@,
            calculated_value: self.calculated_value@,
        }
    }
}

/// What an audit found in a sheet.
#[derive(Debug)]
pub struct FormulaAudit {
    pub sheet: String,
    /// How many formulas had no value in the file.
    pub uncached_values: usize,
    /// How many values in the file are as calculated.
    pub cached_matches: usize,
    pub inconsistencies: Vec<FormulaInconsistency>,
}

/// The mathematical content of a [`FormulaAudit`].
#[verifier::ext_equal]
pub struct FormulaAuditView {
    pub sheet: Seq<char>,
    pub uncached_values: nat,
    pub cached_matches: nat,
    pub inconsistencies: Seq<InconsistencyView>,
}

/// The content of a list of inconsistencies.
pub open spec fn inconsistencies_view(list: Seq<FormulaInconsistency>) -> Seq<InconsistencyView> {
    list.map_values(|inconsistency: FormulaInconsistency| inconsistency@)
}

impl View for FormulaAudit {
    type V = FormulaAuditView;

    open spec fn view(&self) -> FormulaAuditView {
        FormulaAuditView {
            sheet: self.sheet@,
            uncached_values: self.uncached_values as nat,
            cached_matches: self.cached_matches as nat,
            inconsistencies: inconsistencies_view(self.inconsistencies@),
        }
    }
}

impl Default for FormulaAudit {
    fn default() -> (audit: Self)
        ensures
            audit@ == (FormulaAuditView {
                sheet: Seq::empty(),
                uncached_values: 0,
                cached_matches: 0,
                inconsistencies: Seq::empty(),
            }),
    {
        let audit = FormulaAudit {
            sheet: String::new(),
            uncached_values: 0,
            cached_matches: 0,
            inconsistencies: Vec::new(),
        };
        assert(audit@.inconsistencies =~= Seq::<InconsistencyView>::empty());
        audit
    }
}

/// Whether a cell's cached value is held against a calculated one.
pub open spec fn is_audited(cell: CellView) -> bool {
    cell.active_formula() is Some && !cell.formula_value_was_uncached
}

/// The cells that have to be evaluated for an audit, up to the first coordinate
/// that the engine cannot take.
pub struct AuditPlan {
    pub cells: Vec<FormulaCell>,
    /// The coordinate, counted from zero, that ended the plan.
    pub too_large: Option<usize>,
}

/// The mathematical content of an [`AuditPlan`].
#[verifier::ext_equal]
pub struct AuditPlanView {
    pub cells: Seq<FormulaCell>,
    pub too_large: Option<usize>,
}

impl View for AuditPlan {
    type V = AuditPlanView;

    open spec fn view(&self) -> AuditPlanView {
        AuditPlanView { cells: self.cells@, too_large: self.too_large }
    }
}

impl AuditPlanView {
    /// The plan with one more cell.
    pub open spec fn after_cell(self, sheet: SheetView, row: int, col: int) -> Self {
        if self.too_large is Some || !is_audited(sheet.cell(row, col)) {
            self
        } else {
            match engine_position(row, col) {
                Err(index) => AuditPlanView { too_large: Some(index), ..self },
                Ok((engine_row, engine_col)) => AuditPlanView {
                    cells: self.cells.push(
                        FormulaCell {
                            row: row as usize,
                            col: col as usize,
                            engine_row,
                            engine_col,
                        },
                    ),
                    ..self
                },
            }
        }
    }

    /// The plan with the first cells of a row.
    pub open spec fn after_cells(self, sheet: SheetView, row: int, cols: nat) -> Self
        decreases cols,
    {
        if cols == 0 {
            self
        } else {
            self.after_cells(sheet, row, (cols - 1) as nat).after_cell(sheet, row, cols - 1)
        }
    }

    /// The plan with the first rows of a sheet.
    pub open spec fn after_rows(self, sheet: SheetView, rows: nat) -> Self
        decreases rows,
    {
        if rows == 0 {
            self
        } else {
            self.after_rows(sheet, (rows - 1) as nat).after_cells(
                sheet,
                rows - 1,
                sheet.col_count,
            )
        }
    }
}

/// The plan for the audit of a sheet: the cells with cached formula values, row
/// by row.
pub open spec fn sheet_audit_plan(sheet: SheetView) -> AuditPlanView {
    (AuditPlanView { cells: Seq::empty(), too_large: None }).after_rows(sheet, sheet.row_count)
}

/// Plans the audit of a sheet.
pub fn plan_audit(sheet: &SheetData) -> (plan: AuditPlan)
    ensures
        plan@ == sheet_audit_plan(sheet@),
{
    let mut plan = AuditPlan { cells: Vec::new(), too_large: None };
    let ghost start = plan@;
    assert(start =~= AuditPlanView { cells: Seq::empty(), too_large: None });
    let mut row: usize = 0;
    while row < sheet.row_count
        invariant
            row <= sheet.row_count,
            plan@ == start.after_rows(sheet@, row as nat),
        decreases sheet.row_count - row,
    {
        let ghost before = plan@;
        let mut col: usize = 0;
        while col < sheet.col_count
            invariant
                row < sheet.row_count,
                col <= sheet.col_count,
                plan@ == before.after_cells(sheet@, row as int, col as nat),
            decreases sheet.col_count - col,
        {
            if let Some(cell) = sheet.cell_ref(row, col) {
                if plan.too_large.is_none() && !cell.formula_value_was_uncached
                    && cell.active_formula().is_some() {
                    match coord(row) {
                        Err(index) => {
                            plan.too_large = Some(index);
                        },
                        Ok(engine_row) => match coord(col) {
                            Err(index) => {
                                plan.too_large = Some(index);
                            },
                            Ok(engine_col) => {
                                plan.cells.push(FormulaCell { row, col, engine_row, engine_col });
                            },
                        },
                    }
                }
            }
            col += 1;
        }
        row += 1;
    }
    plan
}

/// An audit in progress: what it found so far, and how many of the calculated
/// texts it has used.
#[verifier::ext_equal]
pub struct AuditProgress {
    pub found: FormulaAuditView,
    pub used: nat,
}

impl AuditProgress {
    /// The progress behind one more cell.
    pub open spec fn after_cell(
        self,
        sheet: SheetView,
        row: int,
        col: int,
        calculated: Seq<Seq<char>>,
    ) -> Self {
        let cell = sheet.cell(row, col);
        match cell.active_formula() {
            None => self,
            Some(formula) => if cell.formula_value_was_uncached {
                AuditProgress {
                    found: FormulaAuditView {
                        uncached_values: self.found.uncached_values + 1,
                        ..self.found
                    },
                    ..self
                }
            } else if calculated[self.used as int] == cell.value {
                AuditProgress {
                    found: FormulaAuditView {
                        cached_matches: self.found.cached_matches + 1,
                        ..self.found
                    },
                    used: self.used + 1,
                }
            } else {
                AuditProgress {
                    found: FormulaAuditView {
                        inconsistencies: self.found.inconsistencies.push(
                            InconsistencyView {
                                cell: cell_label_spec(row as nat, col as nat),
                                formula,
                                cached_value: cell.value,
                                calculated_value: calculated[self.used as int],
                            },
                        ),
                        ..self.found
                    },
                    used: self.used + 1,
                }
            },
        }
    }

    /// The progress behind the first cells of a row.
    pub open spec fn after_cells(
        self,
        sheet: SheetView,
        row: int,
        cols: nat,
        calculated: Seq<Seq<char>>,
    ) -> Self
        decreases cols,
    {
        if cols == 0 {
            self
        } else {
            self.after_cells(sheet, row, (cols - 1) as nat, calculated).after_cell(
                sheet,
                row,
                cols - 1,
                calculated,
            )
        }
    }

    /// The progress behind the first rows of a sheet.
    pub open spec fn after_rows(
        self,
        sheet: SheetView,
        rows: nat,
        calculated: Seq<Seq<char>>,
    ) -> Self
        decreases rows,
    {
        if rows == 0 {
            self
        } else {
            self.after_rows(sheet, (rows - 1) as nat, calculated).after_cells(
                sheet,
                rows - 1,
                sheet.col_count,
                calculated,
            )
        }
    }
}

/// The start of an audit.
pub open spec fn audit_start(sheet: SheetView) -> AuditProgress {
    AuditProgress {
        found: FormulaAuditView {
            sheet: sheet.name,
            uncached_values: 0,
            cached_matches: 0,
            inconsistencies: Seq::empty(),
        },
        used: 0,
    }
}

/// What an audit finds in a sheet, given the calculated texts of its cells in
/// the order of the plan.
pub open spec fn sheet_audit(sheet: SheetView, calculated: Seq<Seq<char>>) -> FormulaAuditView {
    audit_start(sheet).after_rows(sheet, sheet.row_count, calculated).found
}

/// As long as no coordinate is too large, an audit uses one calculated text for
/// each cell of its plan, and counts every formula once.
proof fn lemma_audit_cells(
    sheet: SheetView,
    row: int,
    cols: nat,
    plan: AuditPlanView,
    progress: AuditProgress,
    calculated: Seq<Seq<char>>,
)
    requires
        plan.cells.len() == progress.used,
        plan.too_large is None,
        plan.after_cells(sheet, row, cols).too_large is None,
    ensures
        plan.after_cells(sheet, row, cols).cells.len() == progress.after_cells(
            sheet,
            row,
            cols,
            calculated,
        ).used,
    decreases cols,
{
    if cols > 0 {
        let fewer = (cols - 1) as nat;
        lemma_plan_stays_ended(sheet, row, fewer, plan);
        lemma_audit_cells(sheet, row, fewer, plan, progress, calculated);
    }
}

/// A plan that has not ended has not ended before.
proof fn lemma_plan_stays_ended(sheet: SheetView, row: int, cols: nat, plan: AuditPlanView)
    ensures
        plan.after_cells(sheet, row, cols + 1).too_large is None ==> plan.after_cells(
            sheet,
            row,
            cols,
        ).too_large is None,
        plan.after_cells(sheet, row, cols).too_large is None ==> plan.too_large is None,
        plan.after_cells(sheet, row, cols).cells.len() >= plan.cells.len(),
    decreases cols,
{
    if cols > 0 {
        lemma_plan_stays_ended(sheet, row, (cols - 1) as nat, plan);
    }
}

/// A plan only grows from row to row, and a plan that ended stays as it is.
proof fn lemma_plan_rows(sheet: SheetView, rows: nat, total: nat)
    requires
        rows <= total,
    ensures
        ({
            let start = AuditPlanView { cells: Seq::empty(), too_large: None };
            &&& start.after_rows(sheet, total).too_large is None ==> start.after_rows(
                sheet,
                rows,
            ).too_large is None
            &&& start.after_rows(sheet, rows).cells.len() <= start.after_rows(
                sheet,
                total,
            ).cells.len()
        }),
    decreases total - rows,
{
    if rows < total {
        let start = AuditPlanView { cells: Seq::empty(), too_large: None };
        lemma_plan_rows(sheet, rows + 1, total);
        lemma_plan_stays_ended(sheet, rows as int, sheet.col_count, start.after_rows(sheet, rows));
    }
}

/// A plan only grows along a row.
proof fn lemma_plan_cols(sheet: SheetView, row: int, cols: nat, total: nat, plan: AuditPlanView)
    requires
        cols <= total,
    ensures
        plan.after_cells(sheet, row, total).too_large is None ==> plan.after_cells(
            sheet,
            row,
            cols,
        ).too_large is None,
        plan.after_cells(sheet, row, cols).cells.len() <= plan.after_cells(
            sheet,
            row,
            total,
        ).cells.len(),
    decreases total - cols,
{
    if cols < total {
        lemma_plan_cols(sheet, row, cols + 1, total, plan);
    }
}

/// An audit counts at most one formula for each cell that it has passed.
proof fn lemma_audit_counts(
    sheet: SheetView,
    row: int,
    cols: nat,
    progress: AuditProgress,
    calculated: Seq<Seq<char>>,
)
    ensures
        ({
            let after = progress.after_cells(sheet, row, cols, calculated).found;
            after.uncached_values + after.cached_matches + after.inconsistencies.len()
                <= progress.found.uncached_values + progress.found.cached_matches
                + progress.found.inconsistencies.len() + cols
        }),
    decreases cols,
{
    if cols > 0 {
        lemma_audit_counts(sheet, row, (cols - 1) as nat, progress, calculated);
    }
}

/// Audits a sheet: counts the formulas without cached values and the cached
/// values that are as calculated, and lists those that are not.
pub fn formula_audit_for_sheet(sheet: &SheetData, calculated: &Vec<String>) -> (audit: FormulaAudit)
    requires
        sheet@.row_count * sheet@.col_count <= usize::MAX,
        sheet_audit_plan(sheet@).too_large is None,
        calculated@.len() == sheet_audit_plan(sheet@).cells.len(),
    ensures
        audit@ == sheet_audit(sheet@, strings_view(calculated@)),
{
    let ghost view = sheet@;
    let ghost texts = strings_view(calculated@);
    let ghost start = audit_start(view);
    let ghost plan_start = AuditPlanView { cells: Seq::empty(), too_large: None };
    let mut audit = FormulaAudit {
        sheet: sheet.name.clone(),
        uncached_values: 0,
        cached_matches: 0,
        inconsistencies: Vec::new(),
    };
    let mut used: usize = 0;
    assert(audit@ =~= start.found);
    let mut row: usize = 0;
    while row < sheet.row_count
        invariant
            view == sheet@,
            row <= sheet.row_count,
            start == audit_start(view),
            plan_start == (AuditPlanView { cells: Seq::empty(), too_large: None }),
            texts == strings_view(calculated@),
            view.row_count * view.col_count <= usize::MAX,
            sheet_audit_plan(view).too_large is None,
            calculated@.len() == sheet_audit_plan(view).cells.len(),
            start.after_rows(view, row as nat, texts) == (AuditProgress {
                found: audit@,
                used: used as nat,
            }),
            used == plan_start.after_rows(view, row as nat).cells.len(),
            audit@.uncached_values + audit@.cached_matches + audit@.inconsistencies.len() <= row
                * view.col_count,
        decreases sheet.row_count - row,
    {
        let ghost before = start.after_rows(view, row as nat, texts);
        let ghost plan_before = plan_start.after_rows(view, row as nat);
        proof {
            lemma_plan_rows(view, row as nat, view.row_count);
            lemma_plan_rows(view, (row + 1) as nat, view.row_count);
            assert(row * view.col_count + view.col_count <= view.row_count * view.col_count)
                by (nonlinear_arith)
                requires
                    row < view.row_count,
                    0 <= view.col_count,
            ;
        }
        let mut col: usize = 0;
        while col < sheet.col_count
            invariant
                view == sheet@,
                row < sheet.row_count,
                col <= sheet.col_count,
                texts == strings_view(calculated@),
                row * view.col_count + view.col_count <= usize::MAX,
                before.found.uncached_values + before.found.cached_matches
                    + before.found.inconsistencies.len() <= row * view.col_count,
                plan_before.too_large is None,
                plan_before.after_cells(view, row as int, view.col_count).too_large is None,
                plan_before.after_cells(view, row as int, view.col_count).cells.len()
                    <= calculated@.len(),
                plan_before.cells.len() == before.used,
                before.after_cells(view, row as int, col as nat, texts) == (AuditProgress {
                    found: audit@,
                    used: used as nat,
                }),
            decreases sheet.col_count - col,
        {
            proof {
                lemma_audit_counts(view, row as int, col as nat, before, texts);
                lemma_plan_cols(view, row as int, col as nat, view.col_count, plan_before);
                lemma_plan_cols(view, row as int, (col + 1) as nat, view.col_count, plan_before);
                lemma_audit_cells(view, row as int, col as nat, plan_before, before, texts);
                lemma_audit_cells(view, row as int, (col + 1) as nat, plan_before, before, texts);
            }
            let cell = sheet.cell_data(row, col);
            if let Some(formula) = cell.active_formula() {
                if cell.formula_value_was_uncached {
                    audit.uncached_values = audit.uncached_values + 1;
                } else {
                    assert(is_audited(view.cell(row as int, col as int)));
                    assert(used < calculated.len());
                    assert(texts[used as int] == calculated@[used as int]@);
                    if same_text(calculated[used].as_str(), cell.value.as_str()) {
                        audit.cached_matches = audit.cached_matches + 1;
                    } else {
                        let inconsistency = FormulaInconsistency {
                            cell: cell_label(row, col),
                            formula: formula.clone(),
                            cached_value: cell.value.clone(),
                            calculated_value: calculated[used].clone(),
                        };
                        let ghost earlier = audit.inconsistencies@;
                        audit.inconsistencies.push(inconsistency);
                        assert(inconsistencies_view(audit.inconsistencies@)
                            =~= inconsistencies_view(earlier).push(inconsistency@));
                    }
                    used += 1;
                }
            }
            col += 1;
        }
        proof {
            lemma_audit_counts(view, row as int, view.col_count, before, texts);
            lemma_audit_cells(view, row as int, view.col_count, plan_before, before, texts);
            assert((row + 1) * view.col_count == row * view.col_count + view.col_count)
                by (nonlinear_arith);
        }
        row += 1;
    }
    audit
}

/// How many of the first cells of a row have a formula.
pub open spec fn formulas_in_row(sheet: SheetView, row: int, cols: nat) -> nat
    decreases cols,
{
    if cols == 0 {
        0
    } else {
        formulas_in_row(sheet, row, (cols - 1) as nat) + if sheet.cell(
            row,
            cols - 1,
        ).active_formula() is Some {
            1nat
        } else {
            0nat
        }
    }
}

/// How many cells of the first rows of a sheet have a formula.
pub open spec fn formulas_in_rows(sheet: SheetView, rows: nat) -> nat
    decreases rows,
{
    if rows == 0 {
        0
    } else {
        formulas_in_rows(sheet, (rows - 1) as nat) + formulas_in_row(
            sheet,
            rows - 1,
            sheet.col_count,
        )
    }
}

/// How many formulas an audit has counted.
pub open spec fn counted(audit: FormulaAuditView) -> nat {
    audit.uncached_values + audit.cached_matches + audit.inconsistencies.len()
}

/// Whether every listed inconsistency is one.
pub open spec fn lists_differences_only(audit: FormulaAuditView) -> bool {
    forall|i: int|
        0 <= i < audit.inconsistencies.len() ==> (#[trigger] audit.inconsistencies[i]).cached_value
            != audit.inconsistencies[i].calculated_value
}

proof fn lemma_counted_cells(
    sheet: SheetView,
    row: int,
    cols: nat,
    progress: AuditProgress,
    calculated: Seq<Seq<char>>,
)
    requires
        lists_differences_only(progress.found),
    ensures
        counted(progress.after_cells(sheet, row, cols, calculated).found) == counted(progress.found)
            + formulas_in_row(sheet, row, cols),
        lists_differences_only(progress.after_cells(sheet, row, cols, calculated).found),
    decreases cols,
{
    if cols > 0 {
        lemma_counted_cells(sheet, row, (cols - 1) as nat, progress, calculated);
    }
}

proof fn lemma_counted_rows(sheet: SheetView, rows: nat, calculated: Seq<Seq<char>>)
    ensures
        counted(audit_start(sheet).after_rows(sheet, rows, calculated).found) == formulas_in_rows(
            sheet,
            rows,
        ),
        lists_differences_only(audit_start(sheet).after_rows(sheet, rows, calculated).found),
    decreases rows,
{
    if rows > 0 {
        let fewer = (rows - 1) as nat;
        lemma_counted_rows(sheet, fewer, calculated);
        lemma_counted_cells(
            sheet,
            rows - 1,
            sheet.col_count,
            audit_start(sheet).after_rows(sheet, fewer, calculated),
            calculated,
        );
    }
}

/// An audit counts every formula of the sheet exactly once, and lists a value
/// only where it differs from the calculated one.
pub proof fn audits_count_every_formula_once(sheet: SheetView, calculated: Seq<Seq<char>>)
    ensures
        counted(sheet_audit(sheet, calculated)) == formulas_in_rows(sheet, sheet.row_count),
        lists_differences_only(sheet_audit(sheet, calculated)),
{
    lemma_counted_rows(sheet, sheet.row_count, calculated);
}

/// Whether a cell has a formula and the file holds a value for it.
pub open spec fn has_cached_formula(cell: CellView) -> bool {
    cell.formula is Some && cell.formula->0.len() > 0 && !cell.formula_value_was_uncached
}

/// Whether cells are those of a sheet with a cached formula value that come before a
/// position, each once and row by row, with the engine's coordinates counted from one.
pub open spec fn lists_cached_formulas(
    cells: Seq<FormulaCell>,
    sheet: SheetView,
    row: int,
    col: int,
) -> bool {
    &&& forall|k: int|
        0 <= k < cells.len() ==> comes_before(
            (#[trigger] cells[k]).row as int,
            cells[k].col as int,
            row,
            col,
        ) && cells[k].col < sheet.col_count && has_cached_formula(
            sheet.cell(cells[k].row as int, cells[k].col as int),
        ) && cells[k].engine_row == cells[k].row + 1 && cells[k].engine_col == cells[k].col + 1
    &&& forall|j: int, k: int|
        0 <= j < k < cells.len() ==> comes_before(
            (#[trigger] cells[j]).row as int,
            cells[j].col as int,
            (#[trigger] cells[k]).row as int,
            cells[k].col as int,
        )
    &&& forall|r: int, c: int|
        0 <= r && 0 <= c < sheet.col_count && comes_before(r, c, row, col) && has_cached_formula(
            #[trigger] sheet.cell(r, c),
        ) ==> exists|k: int|
            0 <= k < cells.len() && (#[trigger] cells[k]).row == r && cells[k].col == c
}

/// A plan that lists the cells before a row also lists those of the row, in turn.
proof fn lemma_row_is_listed(sheet: SheetView, row: int, cols: nat, plan: AuditPlanView)
    requires
        0 <= row,
        cols <= sheet.col_count,
        plan.too_large is None,
        plan.after_cells(sheet, row, cols).too_large is None,
        lists_cached_formulas(plan.cells, sheet, row, 0),
    ensures
        lists_cached_formulas(plan.after_cells(sheet, row, cols).cells, sheet, row, cols as int),
    decreases cols,
{
    if cols > 0 {
        let fewer = (cols - 1) as nat;
        lemma_plan_stays_ended(sheet, row, fewer, plan);
        lemma_row_is_listed(sheet, row, fewer, plan);
        let earlier = plan.after_cells(sheet, row, fewer).cells;
        let later = plan.after_cells(sheet, row, cols).cells;
        assert forall|r: int, c: int|
            0 <= r && 0 <= c < sheet.col_count && comes_before(r, c, row, cols as int)
                && has_cached_formula(#[trigger] sheet.cell(r, c)) implies exists|k: int|
            0 <= k < later.len() && (#[trigger] later[k]).row == r && later[k].col == c by {
            if comes_before(r, c, row, fewer as int) {
                let k = choose|k: int|
                    0 <= k < earlier.len() && (#[trigger] earlier[k]).row == r && earlier[k].col
                        == c;
                assert(later[k] == earlier[k]);
            } else {
                assert(r == row && c == fewer);
                let k = earlier.len() as int;
                assert(later[k].row == r && later[k].col == c);
            }
        }
        assert forall|j: int, k: int| 0 <= j < k < later.len() implies comes_before(
            (#[trigger] later[j]).row as int,
            later[j].col as int,
            (#[trigger] later[k]).row as int,
            later[k].col as int,
        ) by {
            assert(later[j] == earlier[j]);
            if k < earlier.len() {
                assert(later[k] == earlier[k]);
            }
        }
        assert forall|k: int| 0 <= k < later.len() implies comes_before(
            (#[trigger] later[k]).row as int,
            later[k].col as int,
            row,
            cols as int,
        ) && later[k].col < sheet.col_count && has_cached_formula(
            sheet.cell(later[k].row as int, later[k].col as int),
        ) && later[k].engine_row == later[k].row + 1 && later[k].engine_col == later[k].col + 1 by {
            if k < earlier.len() {
                assert(later[k] == earlier[k]);
            }
        }
    }
}

proof fn lemma_rows_are_listed(sheet: SheetView, rows: nat)
    requires
        (AuditPlanView { cells: Seq::empty(), too_large: None }).after_rows(
            sheet,
            rows,
        ).too_large is None,
    ensures
        lists_cached_formulas(
            (AuditPlanView { cells: Seq::empty(), too_large: None }).after_rows(sheet, rows).cells,
            sheet,
            rows as int,
            0,
        ),
    decreases rows,
{
    let start = AuditPlanView { cells: Seq::empty(), too_large: None };
    if rows > 0 {
        let fewer = (rows - 1) as nat;
        lemma_plan_rows(sheet, fewer, rows);
        lemma_rows_are_listed(sheet, fewer);
        let plan = start.after_rows(sheet, fewer);
        lemma_row_is_listed(sheet, fewer as int, sheet.col_count, plan);
        let cells = start.after_rows(sheet, rows).cells;
        assert forall|r: int, c: int|
            0 <= r && 0 <= c < sheet.col_count && comes_before(r, c, rows as int, 0)
                && has_cached_formula(#[trigger] sheet.cell(r, c)) implies exists|k: int|
            0 <= k < cells.len() && (#[trigger] cells[k]).row == r && cells[k].col == c by {
            assert(comes_before(r, c, fewer as int, sheet.col_count as int));
        }
    }
}

/// The plan of an audit lists every cell whose formula has a value in the file, once, and
/// no other: the engine evaluates exactly those.
pub proof fn audit_plans_list_every_cached_formula(sheet: SheetView)
    requires
        sheet_audit_plan(sheet).too_large is None,
    ensures
        lists_cached_formulas(sheet_audit_plan(sheet).cells, sheet, sheet.row_count as int, 0),
{
    lemma_rows_are_listed(sheet, sheet.row_count);
}

/// What is held against each other for a cell: the text in the file and the calculated one.
pub open spec fn comparison(sheet: SheetView, cell: FormulaCell, calculated: Seq<char>) -> InconsistencyView {
    let found = sheet.cell(cell.row as int, cell.col as int);
    InconsistencyView {
        cell: cell_label_spec(cell.row as nat, cell.col as nat),
        formula: found.formula->0,
        cached_value: found.value,
        calculated_value: calculated,
    }
}

/// What is held against each other for cells.
pub open spec fn comparisons(
    sheet: SheetView,
    cells: Seq<FormulaCell>,
    calculated: Seq<Seq<char>>,
) -> Seq<InconsistencyView> {
    Seq::new(cells.len(), |k: int| comparison(sheet, cells[k], calculated[k]))
}

/// The comparisons in which the texts differ.
pub open spec fn differing(comparisons: Seq<InconsistencyView>) -> Seq<InconsistencyView> {
    comparisons.filter(|item: InconsistencyView| item.cached_value != item.calculated_value)
}

/// Whether what an audit found so far is what the comparisons so far show.
spec fn is_complete(
    sheet: SheetView,
    plan: AuditPlanView,
    progress: AuditProgress,
    calculated: Seq<Seq<char>>,
) -> bool {
    let all = comparisons(sheet, plan.cells, calculated);
    &&& plan.too_large is None
    &&& progress.used == plan.cells.len()
    &&& progress.found.inconsistencies == differing(all)
    &&& progress.found.cached_matches + progress.found.inconsistencies.len() == all.len()
}

proof fn lemma_row_is_complete(
    sheet: SheetView,
    row: int,
    cols: nat,
    plan: AuditPlanView,
    progress: AuditProgress,
    calculated: Seq<Seq<char>>,
)
    requires
        0 <= row,
        is_complete(sheet, plan, progress, calculated),
        plan.after_cells(sheet, row, cols).too_large is None,
    ensures
        is_complete(
            sheet,
            plan.after_cells(sheet, row, cols),
            progress.after_cells(sheet, row, cols, calculated),
            calculated,
        ),
    decreases cols,
{
    if cols > 0 {
        let fewer = (cols - 1) as nat;
        lemma_plan_stays_ended(sheet, row, fewer, plan);
        lemma_row_is_complete(sheet, row, fewer, plan, progress, calculated);
        let earlier = plan.after_cells(sheet, row, fewer);
        let later = plan.after_cells(sheet, row, cols);
        let differs = |item: InconsistencyView| item.cached_value != item.calculated_value;
        let before = comparisons(sheet, earlier.cells, calculated);
        let after = comparisons(sheet, later.cells, calculated);
        if later.cells.len() > earlier.cells.len() {
            let last = comparison(sheet, later.cells.last(), calculated[earlier.cells.len() as int]);
            assert(after =~= before.push(last));
            assert(after.drop_last() =~= before);
            assert(after.last() == last);
            before.lemma_filter_push(last, differs);
            assert(after.filter(differs) == if differs(last) {
                before.filter(differs).push(last)
            } else {
                before.filter(differs)
            });
        }
    }
}

proof fn lemma_rows_are_complete(sheet: SheetView, rows: nat, calculated: Seq<Seq<char>>)
    requires
        (AuditPlanView { cells: Seq::empty(), too_large: None }).after_rows(
            sheet,
            rows,
        ).too_large is None,
    ensures
        is_complete(
            sheet,
            (AuditPlanView { cells: Seq::empty(), too_large: None }).after_rows(sheet, rows),
            audit_start(sheet).after_rows(sheet, rows, calculated),
            calculated,
        ),
    decreases rows,
{
    let start = AuditPlanView { cells: Seq::empty(), too_large: None };
    if rows > 0 {
        let fewer = (rows - 1) as nat;
        lemma_plan_rows(sheet, fewer, rows);
        lemma_rows_are_complete(sheet, fewer, calculated);
        lemma_row_is_complete(
            sheet,
            fewer as int,
            sheet.col_count,
            start.after_rows(sheet, fewer),
            audit_start(sheet).after_rows(sheet, fewer, calculated),
            calculated,
        );
    } else {
        let all = comparisons(sheet, start.cells, calculated);
        assert(all =~= Seq::<InconsistencyView>::empty());
        reveal(Seq::filter);
        assert(differing(all) =~= Seq::<InconsistencyView>::empty());
    }
}

/// An audit is complete: it lists exactly the cached values that differ from the calculated
/// ones, in the order of the plan, each with its label, its formula and both texts, and
/// counts all others as matches.
pub proof fn audits_list_every_difference(sheet: SheetView, calculated: Seq<Seq<char>>)
    requires
        sheet_audit_plan(sheet).too_large is None,
        calculated.len() == sheet_audit_plan(sheet).cells.len(),
    ensures
        ({
            let cells = sheet_audit_plan(sheet).cells;
            let audit = sheet_audit(sheet, calculated);
            &&& audit.inconsistencies == comparisons(sheet, cells, calculated).filter(
                |item: InconsistencyView| item.cached_value != item.calculated_value,
            )
            &&& audit.cached_matches + audit.inconsistencies.len() == cells.len()
            &&& forall|k: int|
                0 <= k < cells.len() && calculated[k] != sheet.cell(
                    (#[trigger] cells[k]).row as int,
                    cells[k].col as int,
                ).value ==> audit.inconsistencies.contains(
                    comparison(sheet, cells[k], calculated[k]),
                )
            &&& audit.inconsistencies.len() == 0 <==> forall|k: int|
                0 <= k < cells.len() ==> calculated[k] == sheet.cell(
                    (#[trigger] cells[k]).row as int,
                    cells[k].col as int,
                ).value
        }),
{
    let cells = sheet_audit_plan(sheet).cells;
    let audit = sheet_audit(sheet, calculated);
    let all = comparisons(sheet, cells, calculated);
    let differs = |item: InconsistencyView| item.cached_value != item.calculated_value;
    lemma_rows_are_complete(sheet, sheet.row_count, calculated);
    assert forall|k: int|
        0 <= k < cells.len() && calculated[k] != sheet.cell(
            (#[trigger] cells[k]).row as int,
            cells[k].col as int,
        ).value implies audit.inconsistencies.contains(
        comparison(sheet, cells[k], calculated[k]),
    ) by {
        assert(all[k] == comparison(sheet, cells[k], calculated[k]));
        assert(differs(all[k]));
        all.lemma_filter_contains(differs, k);
    }
    if audit.inconsistencies.len() > 0 {
        let item = audit.inconsistencies[0];
        assert(all.filter(differs).contains(item));
        all.lemma_filter_contains_rev(differs, item);
        all.lemma_filter_pred(differs, 0);
        let k = choose|k: int| 0 <= k < all.len() && all[k] == item;
        assert(differs(item));
        assert(calculated[k] != sheet.cell(cells[k].row as int, cells[k].col as int).value);
    }
}

/// Whether an audit found an inconsistency.
pub open spec fn found_inconsistency(audits: Seq<FormulaAuditView>) -> bool {
    exists|i: int| 0 <= i < audits.len() && (#[trigger] audits[i]).inconsistencies.len() > 0
}

/// The content of a list of audits.
pub open spec fn audits_view(audits: Seq<FormulaAudit>) -> Seq<FormulaAuditView> {
    audits.map_values(|audit: FormulaAudit| audit@)
}

/// The exit code of an audit: one if it found an inconsistency, else zero.
pub fn formula_audit_exit_code(audits: &Vec<FormulaAudit>) -> (code: i32)
    ensures
        code == (if found_inconsistency(audits_view(audits@)) {
            1i32
        } else {
            0i32
        }),
        code == exit_code_of(audits_view(audits@)),
{
    let ghost views = audits_view(audits@);
    let mut index: usize = 0;
    while index < audits.len()
        invariant
            index <= audits@.len(),
            views == audits_view(audits@),
            forall|i: int| 0 <= i < index ==> (#[trigger] views[i]).inconsistencies.len() == 0,
        decreases audits@.len() - index,
    {
        assert(views[index as int] == audits@[index as int]@);
        if audits[index].inconsistencies.len() > 0 {
            return 1;
        }
        index += 1;
    }
    0
}

/// How an inconsistency is reported.
pub open spec fn inconsistency_report(inconsistency: InconsistencyView) -> Seq<char> {
    "    <inconsistency cell=\""@ + escaped_xml_attr(inconsistency.cell) + "\">\n      <formula>"@
        + escaped_xml_text(inconsistency.formula) + "</formula>\n      <cached_value>"@ + escaped_xml_text(
        inconsistency.cached_value,
    ) + "</cached_value>\n      <calculated_value>"@ + escaped_xml_text(inconsistency.calculated_value)
        + "</calculated_value>\n    </inconsistency>\n"@
}

/// How an audit is reported.
pub open spec fn audit_report_of(audit: FormulaAuditView) -> Seq<char> {
    let head = "<sheet name=\""@ + escaped_xml_attr(audit.sheet) + "\">\n  <uncached_values>"@ + decimal(
        audit.uncached_values,
    ) + "</uncached_values>\n  <cached_matches>"@ + decimal(audit.cached_matches)
        + "</cached_matches>\n"@;
    if audit.inconsistencies.len() == 0 {
        head + "</sheet>\n"@
    } else {
        head + "  <inconsistencies count=\""@ + decimal(audit.inconsistencies.len()) + "\">\n"@
            + concatenated(
            audit.inconsistencies.map_values(|item: InconsistencyView| inconsistency_report(item)),
        ) + "  </inconsistencies>\n</sheet>\n"@
    }
}

/// Appends the report of an inconsistency.
fn append_inconsistency(output: &mut String, inconsistency: &FormulaInconsistency)
    ensures
        final(output)@ == old(output)@ + inconsistency_report(inconsistency@),
{
    let ghost before = output@;
    output.push_str("    <inconsistency cell=\"");
    append_xml_attr(output, inconsistency.cell.as_str());
    output.push_str("\">\n      <formula>");
    append_xml_text(output, inconsistency.formula.as_str());
    output.push_str("</formula>\n      <cached_value>");
    append_xml_text(output, inconsistency.cached_value.as_str());
    output.push_str("</cached_value>\n      <calculated_value>");
    append_xml_text(output, inconsistency.calculated_value.as_str());
    output.push_str("</calculated_value>\n    </inconsistency>\n");
    assert(output@ =~= before + inconsistency_report(inconsistency@));
}

/// The report of an audit.
pub fn audit_report(audit: &FormulaAudit) -> (report: String)
    ensures
        report@ == audit_report_of(audit@),
{
    let mut output = "<sheet name=\"".to_owned();
    append_xml_attr(&mut output, audit.sheet.as_str());
    output.push_str("\">\n  <uncached_values>");
    push_decimal(&mut output, audit.uncached_values as u64);
    output.push_str("</uncached_values>\n  <cached_matches>");
    push_decimal(&mut output, audit.cached_matches as u64);
    output.push_str("</cached_matches>\n");
    if audit.inconsistencies.len() == 0 {
        output.push_str("</sheet>\n");
        return output;
    }
    output.push_str("  <inconsistencies count=\"");
    push_decimal(&mut output, audit.inconsistencies.len() as u64);
    output.push_str("\">\n");
    let ghost before = output@;
    let ghost parts = audit@.inconsistencies.map_values(
        |item: InconsistencyView| inconsistency_report(item),
    );
    let mut index: usize = 0;
    assert(parts.take(0) == Seq::<Seq<char>>::empty());
    while index < audit.inconsistencies.len()
        invariant
            index <= audit.inconsistencies@.len(),
            parts == audit@.inconsistencies.map_values(
                |item: InconsistencyView| inconsistency_report(item),
            ),
            output@ == before + concatenated(parts.take(index as int)),
        decreases audit.inconsistencies@.len() - index,
    {
        proof {
            assert(parts.take(index + 1).drop_last() == parts.take(index as int));
            assert(parts.take(index + 1).last() == inconsistency_report(
                audit.inconsistencies@[index as int]@,
            ));
        }
        append_inconsistency(&mut output, &audit.inconsistencies[index]);
        index += 1;
        assert(output@ =~= before + concatenated(parts.take(index as int)));
    }
    assert(parts.take(index as int) == parts);
    output.push_str("  </inconsistencies>\n</sheet>\n");
    output
}

/// An audit counts as uncached exactly the formulas that had no value in the file: those that
/// are not in the plan.
pub proof fn formulas_without_value_are_uncached(sheet: SheetView, calculated: Seq<Seq<char>>)
    requires
        sheet_audit_plan(sheet).too_large is None,
        calculated.len() == sheet_audit_plan(sheet).cells.len(),
    ensures
        sheet_audit(sheet, calculated).uncached_values + sheet_audit_plan(sheet).cells.len()
            == formulas_in_rows(sheet, sheet.row_count),
        sheet_audit(sheet, calculated).sheet == sheet.name,
{
    audits_count_every_formula_once(sheet, calculated);
    audits_list_every_difference(sheet, calculated);
    lemma_rows_keep_the_name(sheet, sheet.row_count, calculated);
}

proof fn lemma_cells_keep_the_name(
    sheet: SheetView,
    row: int,
    cols: nat,
    progress: AuditProgress,
    calculated: Seq<Seq<char>>,
)
    ensures
        progress.after_cells(sheet, row, cols, calculated).found.sheet == progress.found.sheet,
    decreases cols,
{
    if cols > 0 {
        lemma_cells_keep_the_name(sheet, row, (cols - 1) as nat, progress, calculated);
    }
}

proof fn lemma_rows_keep_the_name(sheet: SheetView, rows: nat, calculated: Seq<Seq<char>>)
    ensures
        audit_start(sheet).after_rows(sheet, rows, calculated).found.sheet == sheet.name,
    decreases rows,
{
    if rows > 0 {
        let fewer = (rows - 1) as nat;
        lemma_rows_keep_the_name(sheet, fewer, calculated);
        lemma_cells_keep_the_name(
            sheet,
            rows - 1,
            sheet.col_count,
            audit_start(sheet).after_rows(sheet, fewer, calculated),
            calculated,
        );
    }
}

/// An audit fails as soon as one sheet has a difference, and only then.
pub proof fn one_difference_fails_the_audit(audits: Seq<FormulaAuditView>)
    ensures
        found_inconsistency(audits) <==> !(forall|i: int|
            0 <= i < audits.len() ==> (#[trigger] audits[i]).inconsistencies == Seq::<
                InconsistencyView,
            >::empty()),
{
    if !found_inconsistency(audits) {
        assert forall|i: int| 0 <= i < audits.len() implies (#[trigger] audits[i]).inconsistencies
            == Seq::<InconsistencyView>::empty() by {
            assert(audits[i].inconsistencies =~= Seq::<InconsistencyView>::empty());
        }
    }
}

/// A text between an opening and a closing bracket, in an element of its own.
proof fn lemma_element(
    before: Seq<char>,
    name: Seq<char>,
    text: Seq<char>,
    closing: Seq<char>,
)
    requires
        !name.contains('<'),
        !text.contains('<'),
        !closing.contains('<'),
    ensures
        pieces(before + seq!['<'] + (name + text) + seq!['<'] + closing, '<') == pieces(before, '<')
            + seq![name + text, closing],
{
    let inner = name + text;
    assert forall|i: int| 0 <= i < inner.len() implies inner[i] != '<' by {
        if i < name.len() {
            assert(name.contains(name[i]));
        } else {
            assert(text.contains(text[i - name.len()]));
        }
    }
    lemma_pieces_append(before, '<', inner);
    lemma_pieces_append(before + seq!['<'] + inner, '<', closing);
    assert(pieces(before, '<').push(inner).push(closing) =~= pieces(before, '<') + seq![
        inner,
        closing,
    ]);
}

/// The pieces of the report of a difference between the brackets that open a tag.
proof fn lemma_reported_inconsistency(item: InconsistencyView)
    ensures
        ({
            let parts = pieces(inconsistency_report(item), '<');
            &&& parts.len() == 9
            &&& parts[1] == "inconsistency cell=\""@ + escaped_xml_attr(item.cell)
                + "\">\n      "@
            &&& parts[2] == "formula>"@ + escaped_xml_text(item.formula)
            &&& parts[4] == "cached_value>"@ + escaped_xml_text(item.cached_value)
            &&& parts[6] == "calculated_value>"@ + escaped_xml_text(item.calculated_value)
        }),
{
    let bracket = seq!['<'];
    let cell = escaped_xml_attr(item.cell);
    let formula = escaped_xml_text(item.formula);
    let cached = escaped_xml_text(item.cached_value);
    let calculated = escaped_xml_text(item.calculated_value);
    escaped_text_stays_in_place(item.cell);
    escaped_text_stays_in_place(item.formula);
    escaped_text_stays_in_place(item.cached_value);
    escaped_text_stays_in_place(item.calculated_value);
    lemma_report_words();
    let indent = "    "@;
    let (name1, end1) = ("inconsistency cell=\""@, "\">\n      "@);
    let tag1 = name1 + cell + end1;
    assert forall|i: int| 0 <= i < tag1.len() implies tag1[i] != '<' by {
        if i < name1.len() {
            assert(name1.contains(name1[i]));
        } else if i < name1.len() + cell.len() {
            assert(cell.contains(cell[i - name1.len()]));
        } else {
            assert(end1.contains(end1[i - name1.len() - cell.len()]));
        }
    }
    lemma_pieces_single(indent, '<');
    lemma_pieces_append(indent, '<', tag1);
    let t1 = indent + bracket + tag1;
    let end2 = "/formula>\n      "@;
    lemma_element(t1, "formula>"@, formula, end2);
    let t2 = t1 + bracket + ("formula>"@ + formula) + bracket + end2;
    let end3 = "/cached_value>\n      "@;
    lemma_element(t2, "cached_value>"@, cached, end3);
    let t3 = t2 + bracket + ("cached_value>"@ + cached) + bracket + end3;
    let end4 = "/calculated_value>\n    "@;
    lemma_element(t3, "calculated_value>"@, calculated, end4);
    let t4 = t3 + bracket + ("calculated_value>"@ + calculated) + bracket + end4;
    lemma_pieces_append(t4, '<', "/inconsistency>\n"@);
    let t5 = t4 + bracket + "/inconsistency>\n"@;
    let s1 = indent + bracket + name1 + cell + (end1 + bracket + "formula>"@);
    assert(s1 =~= t1 + bracket + "formula>"@);
    let s2 = t1 + bracket + "formula>"@ + formula + (bracket + end2 + bracket + "cached_value>"@);
    assert(s2 =~= t2 + bracket + "cached_value>"@);
    let s3 = t2 + bracket + "cached_value>"@ + cached + (bracket + end3 + bracket
        + "calculated_value>"@);
    assert(s3 =~= t3 + bracket + "calculated_value>"@);
    let s4 = t3 + bracket + "calculated_value>"@ + calculated + (bracket + end4 + bracket
        + "/inconsistency>\n"@);
    assert(s4 =~= t5);
}

proof fn lemma_report_words()
    ensures
        "    <inconsistency cell=\""@ == "    "@ + seq!['<'] + "inconsistency cell=\""@,
        "\">\n      <formula>"@ == "\">\n      "@ + seq!['<'] + "formula>"@,
        "</formula>\n      <cached_value>"@ == seq!['<'] + "/formula>\n      "@ + seq!['<']
            + "cached_value>"@,
        "</cached_value>\n      <calculated_value>"@ == seq!['<'] + "/cached_value>\n      "@
            + seq!['<'] + "calculated_value>"@,
        "</calculated_value>\n    </inconsistency>\n"@ == seq!['<']
            + "/calculated_value>\n    "@ + seq!['<'] + "/inconsistency>\n"@,
        "inconsistency cell=\""@.len() == 20,
        "formula>"@.len() == 8,
        "cached_value>"@.len() == 13,
        "calculated_value>"@.len() == 17,
        "\">\n      "@.len() > 0,
        "\">\n      "@[0] == '"',
        !"    "@.contains('<'),
        !"inconsistency cell=\""@.contains('<'),
        !"\">\n      "@.contains('<'),
        !"formula>"@.contains('<'),
        !"/formula>\n      "@.contains('<'),
        !"cached_value>"@.contains('<'),
        !"/cached_value>\n      "@.contains('<'),
        !"calculated_value>"@.contains('<'),
        !"/calculated_value>\n    "@.contains('<'),
        !"/inconsistency>\n"@.contains('<'),
{
    reveal_strlit("    <inconsistency cell=\"");
    reveal_strlit("\">\n      <formula>");
    reveal_strlit("</formula>\n      <cached_value>");
    reveal_strlit("</cached_value>\n      <calculated_value>");
    reveal_strlit("</calculated_value>\n    </inconsistency>\n");
    reveal_strlit("    ");
    reveal_strlit("inconsistency cell=\"");
    reveal_strlit("\">\n      ");
    reveal_strlit("formula>");
    reveal_strlit("/formula>\n      ");
    reveal_strlit("cached_value>");
    reveal_strlit("/cached_value>\n      ");
    reveal_strlit("calculated_value>");
    reveal_strlit("/calculated_value>\n    ");
    reveal_strlit("/inconsistency>\n");
    assert("    <inconsistency cell=\""@ =~= "    "@ + seq!['<'] + "inconsistency cell=\""@);
    assert("\">\n      <formula>"@ =~= "\">\n      "@ + seq!['<'] + "formula>"@);
    assert("</formula>\n      <cached_value>"@ =~= seq!['<'] + "/formula>\n      "@ + seq!['<']
        + "cached_value>"@);
    assert("</cached_value>\n      <calculated_value>"@ =~= seq!['<']
        + "/cached_value>\n      "@ + seq!['<'] + "calculated_value>"@);
    assert("</calculated_value>\n    </inconsistency>\n"@ =~= seq!['<']
        + "/calculated_value>\n    "@ + seq!['<'] + "/inconsistency>\n"@);
}

proof fn lemma_head_words()
    ensures
        "<sheet name=\""@ == seq!['<'] + "sheet name=\""@,
        "\">\n  <uncached_values>"@ == "\">\n  "@ + seq!['<'] + "uncached_values>"@,
        "</uncached_values>\n  <cached_matches>"@ == seq!['<'] + "/uncached_values>\n  "@
            + seq!['<'] + "cached_matches>"@,
        "</cached_matches>\n"@ == seq!['<'] + "/cached_matches>\n"@,
        "sheet name=\""@.len() == 12,
        "\">\n  "@.len() > 0,
        "\">\n  "@[0] == '"',
        !"sheet name=\""@.contains('<'),
        !"\">\n  "@.contains('<'),
        !"uncached_values>"@.contains('<'),
        !"/uncached_values>\n  "@.contains('<'),
        !"cached_matches>"@.contains('<'),
        !"/cached_matches>\n"@.contains('<'),
{
    reveal_strlit("<sheet name=\"");
    reveal_strlit("\">\n  <uncached_values>");
    reveal_strlit("</uncached_values>\n  <cached_matches>");
    reveal_strlit("</cached_matches>\n");
    reveal_strlit("sheet name=\"");
    reveal_strlit("\">\n  ");
    reveal_strlit("uncached_values>");
    reveal_strlit("/uncached_values>\n  ");
    reveal_strlit("cached_matches>");
    reveal_strlit("/cached_matches>\n");
    assert("<sheet name=\""@ =~= seq!['<'] + "sheet name=\""@);
    assert("\">\n  <uncached_values>"@ =~= "\">\n  "@ + seq!['<'] + "uncached_values>"@);
    assert("</uncached_values>\n  <cached_matches>"@ =~= seq!['<'] + "/uncached_values>\n  "@
        + seq!['<'] + "cached_matches>"@);
    assert("</cached_matches>\n"@ =~= seq!['<'] + "/cached_matches>\n"@);
}

/// What every report begins with.
spec fn report_head(audit: FormulaAuditView) -> Seq<char> {
    "<sheet name=\""@ + escaped_xml_attr(audit.sheet) + "\">\n  <uncached_values>"@ + decimal(
        audit.uncached_values,
    ) + "</uncached_values>\n  <cached_matches>"@ + decimal(audit.cached_matches)
        + "</cached_matches>\n"@
}

proof fn lemma_digits_hold_no_bracket(number: nat)
    ensures
        !decimal(number).contains('<'),
{
    digits_denote_their_number(number, 10);
    assert forall|i: int| 0 <= i < decimal(number).len() implies decimal(number)[i] != '<' by {
        assert(is_digit_of(decimal(number)[i], 10));
    }
}

proof fn lemma_reported_head(audit: FormulaAuditView)
    ensures
        ({
            let parts = pieces(report_head(audit), '<');
            &&& parts.len() == 6
            &&& parts[1] == "sheet name=\""@ + escaped_xml_attr(audit.sheet) + "\">\n  "@
            &&& parts[2] == "uncached_values>"@ + decimal(audit.uncached_values)
            &&& parts[4] == "cached_matches>"@ + decimal(audit.cached_matches)
        }),
{
    lemma_head_words();
    let bracket = seq!['<'];
    let name = escaped_xml_attr(audit.sheet);
    let (uncached, matches_) = (decimal(audit.uncached_values), decimal(audit.cached_matches));
    escaped_text_stays_in_place(audit.sheet);
    lemma_digits_hold_no_bracket(audit.uncached_values);
    lemma_digits_hold_no_bracket(audit.cached_matches);
    let (begin, end) = ("sheet name=\""@, "\">\n  "@);
    let tag = begin + name + end;
    assert forall|i: int| 0 <= i < tag.len() implies tag[i] != '<' by {
        if i < begin.len() {
            assert(begin.contains(begin[i]));
        } else if i < begin.len() + name.len() {
            assert(name.contains(name[i - begin.len()]));
        } else {
            assert(end.contains(end[i - begin.len() - name.len()]));
        }
    }
    let nothing = Seq::<char>::empty();
    lemma_pieces_single(nothing, '<');
    lemma_pieces_append(nothing, '<', tag);
    let t1 = nothing + bracket + tag;
    lemma_element(t1, "uncached_values>"@, uncached, "/uncached_values>\n  "@);
    let t2 = t1 + bracket + ("uncached_values>"@ + uncached) + bracket + "/uncached_values>\n  "@;
    lemma_element(t2, "cached_matches>"@, matches_, "/cached_matches>\n"@);
    let t3 = t2 + bracket + ("cached_matches>"@ + matches_) + bracket + "/cached_matches>\n"@;
    let s1 = bracket + begin + name + (end + bracket + "uncached_values>"@);
    assert(s1 =~= t1 + bracket + "uncached_values>"@);
    let s2 = t1 + bracket + "uncached_values>"@ + uncached + (bracket + "/uncached_values>\n  "@
        + bracket + "cached_matches>"@);
    assert(s2 =~= t2 + bracket + "cached_matches>"@);
    let s3 = t2 + bracket + "cached_matches>"@ + matches_ + (bracket + "/cached_matches>\n"@);
    assert(s3 =~= t3);
}

proof fn lemma_report_without_differences(audit: FormulaAuditView)
    requires
        audit.inconsistencies.len() == 0,
    ensures
        ({
            let parts = pieces(audit_report_of(audit), '<');
            &&& parts.len() == 7
            &&& parts.take(6) == pieces(report_head(audit), '<')
            &&& parts[1] == "sheet name=\""@ + escaped_xml_attr(audit.sheet) + "\">\n  "@
            &&& parts[2] == "uncached_values>"@ + decimal(audit.uncached_values)
            &&& parts[4] == "cached_matches>"@ + decimal(audit.cached_matches)
        }),
{
    lemma_reported_head(audit);
    let head = report_head(audit);
    reveal_strlit("</sheet>\n");
    reveal_strlit("/sheet>\n");
    assert("</sheet>\n"@ =~= seq!['<'] + "/sheet>\n"@);
    assert(audit_report_of(audit) =~= head + seq!['<'] + "/sheet>\n"@);
    assert(!"/sheet>\n"@.contains('<'));
    lemma_pieces_append(head, '<', "/sheet>\n"@);
    let parts = pieces(audit_report_of(audit), '<');
    assert(parts.take(6) =~= pieces(head, '<'));
}

proof fn lemma_list_words()
    ensures
        "  <inconsistencies count=\""@ == "  "@ + seq!['<'] + "inconsistencies count=\""@,
        "  </inconsistencies>\n</sheet>\n"@ == "  "@ + seq!['<'] + "/inconsistencies>\n"@ + seq![
            '<',
        ] + "/sheet>\n"@,
        "\">\n"@ == seq!['"'] + ">\n"@,
        !"  "@.contains('<'),
        !"inconsistencies count=\""@.contains('<'),
        !">\n"@.contains('<'),
        !"/inconsistencies>\n"@.contains('<'),
        !"/sheet>\n"@.contains('<'),
{
    reveal_strlit("  <inconsistencies count=\"");
    reveal_strlit("inconsistencies count=\"");
    reveal_strlit("\">\n");
    reveal_strlit(">\n");
    reveal_strlit("  ");
    reveal_strlit("  </inconsistencies>\n</sheet>\n");
    reveal_strlit("/inconsistencies>\n");
    reveal_strlit("/sheet>\n");
    assert("  <inconsistencies count=\""@ =~= "  "@ + seq!['<'] + "inconsistencies count=\""@);
    assert("  </inconsistencies>\n</sheet>\n"@ =~= "  "@ + seq!['<'] + "/inconsistencies>\n"@
        + seq!['<'] + "/sheet>\n"@);
    assert("\">\n"@ =~= seq!['"'] + ">\n"@);
}

proof fn lemma_list_opening(count: nat)
    ensures
        ({
            let opening = "  <inconsistencies count=\""@ + decimal(count) + "\">\n"@;
            let tag = "inconsistencies count=\""@ + decimal(count) + "\">\n"@;
            &&& pieces(opening, '<') == seq!["  "@, tag]
            &&& begins_with(tag, "inconsistencies count=\""@ + decimal(count) + seq!['"'])
        }),
{
    lemma_list_words();
    lemma_digits_hold_no_bracket(count);
    let (word, digits, end) = ("inconsistencies count=\""@, decimal(count), "\">\n"@);
    let tag = word + digits + end;
    assert(!end.contains('<')) by {
        assert forall|i: int| 0 <= i < end.len() implies end[i] != '<' by {
            if i > 0 {
                assert(">\n"@.contains(">\n"@[i - 1]));
            }
        }
    }
    assert forall|i: int| 0 <= i < tag.len() implies tag[i] != '<' by {
        if i < word.len() {
            assert(word.contains(word[i]));
        } else if i < word.len() + digits.len() {
            assert(digits.contains(digits[i - word.len()]));
        } else {
            assert(end.contains(end[i - word.len() - digits.len()]));
        }
    }
    lemma_pieces_single("  "@, '<');
    lemma_pieces_append("  "@, '<', tag);
    assert("  "@ + seq!['<'] + word + digits + end =~= "  "@ + seq!['<'] + tag);
    assert(seq!["  "@].push(tag) =~= seq!["  "@, tag]);
    let start = word + digits + seq!['"'];
    assert(tag.take(start.len() as int) =~= start);
}

proof fn lemma_report_with_differences(audit: FormulaAuditView, index: int)
    requires
        audit.inconsistencies.len() > 0,
    ensures
        ({
            let parts = pieces(audit_report_of(audit), '<');
            let count = audit.inconsistencies.len();
            &&& parts.len() == 8 * count + 9
            &&& parts[1] == "sheet name=\""@ + escaped_xml_attr(audit.sheet) + "\">\n  "@
            &&& parts[2] == "uncached_values>"@ + decimal(audit.uncached_values)
            &&& parts[4] == "cached_matches>"@ + decimal(audit.cached_matches)
            &&& begins_with(
                parts[6],
                "inconsistencies count=\""@ + decimal(count) + seq!['"'],
            )
            &&& 0 <= index < count ==> ({
                let item = audit.inconsistencies[index];
                &&& parts[8 * index + 7] == "inconsistency cell=\""@ + escaped_xml_attr(item.cell)
                    + "\">\n      "@
                &&& parts[8 * index + 8] == "formula>"@ + escaped_xml_text(item.formula)
                &&& parts[8 * index + 10] == "cached_value>"@ + escaped_xml_text(item.cached_value)
                &&& parts[8 * index + 12] == "calculated_value>"@ + escaped_xml_text(
                    item.calculated_value,
                )
            })
        }),
{
    lemma_reported_head(audit);
    lemma_list_words();
    let count = audit.inconsistencies.len();
    lemma_list_opening(count);
    let head = report_head(audit);
    let opening = "  <inconsistencies count=\""@ + decimal(count) + "\">\n"@;
    let tag = "inconsistencies count=\""@ + decimal(count) + "\">\n"@;
    let items = audit.inconsistencies.map_values(
        |item: InconsistencyView| inconsistency_report(item),
    );
    assert forall|i: int| 0 <= i < items.len() implies pieces(#[trigger] items[i], '<').len()
        == 9 by {
        lemma_reported_inconsistency(audit.inconsistencies[i]);
    }
    let inner = concatenated(items);
    lemma_counted_pieces(items, '<', 8, index, 1);
    lemma_counted_pieces(items, '<', 8, index, 2);
    lemma_counted_pieces(items, '<', 8, index, 4);
    lemma_counted_pieces(items, '<', 8, index, 6);
    let bracket = seq!['<'];
    let closing = "  </inconsistencies>\n</sheet>\n"@;
    lemma_pieces_single("  "@, '<');
    lemma_pieces_append("  "@, '<', "/inconsistencies>\n"@);
    lemma_pieces_append("  "@ + bracket + "/inconsistencies>\n"@, '<', "/sheet>\n"@);
    assert(pieces(closing, '<').len() == 3);
    let report = head + opening + inner + closing;
    assert(audit_report_of(audit) =~= report);
    let list = pieces(inner, '<');
    let parts = pieces(report, '<');
    assert(list.len() == 8 * count + 1);
    lemma_four_texts(head, opening, inner, closing, tag);
    let start = "inconsistencies count=\""@ + decimal(count) + seq!['"'];
    assert((tag + list[0]).take(start.len() as int) =~= tag.take(start.len() as int));
    if 0 <= index < count {
        let item = audit.inconsistencies[index];
        assert(items[index] == inconsistency_report(item));
        lemma_reported_inconsistency(item);
        assert(parts[6 + (8 * index + 1)] == list[8 * index + 1]);
        assert(parts[6 + (8 * index + 2)] == list[8 * index + 2]);
        assert(parts[6 + (8 * index + 4)] == list[8 * index + 4]);
        assert(parts[6 + (8 * index + 6)] == list[8 * index + 6]);
    }
}

/// The pieces of a beginning with five separators, an opening with one, a list with some and an
/// end with two.
proof fn lemma_four_texts(
    head: Seq<char>,
    opening: Seq<char>,
    inner: Seq<char>,
    closing: Seq<char>,
    tag: Seq<char>,
)
    requires
        pieces(head, '<').len() == 6,
        pieces(opening, '<').len() == 2,
        pieces(opening, '<')[1] == tag,
        pieces(inner, '<').len() > 1,
        pieces(closing, '<').len() == 3,
    ensures
        ({
            let parts = pieces(head + opening + inner + closing, '<');
            let (top, list) = (pieces(head, '<'), pieces(inner, '<'));
            &&& parts.len() == list.len() + 8
            &&& parts[1] == top[1] && parts[2] == top[2] && parts[4] == top[4]
            &&& parts[6] == tag + list[0]
            &&& forall|j: int| 1 <= j < list.len() - 1 ==> #[trigger] parts[6 + j] == list[j]
        }),
{
    lemma_pieces_sum(head, opening, '<');
    lemma_pieces_sum(head + opening, inner, '<');
    lemma_pieces_sum(head + opening + inner, closing, '<');
    let (top, list) = (pieces(head, '<'), pieces(inner, '<'));
    let two = pieces(head + opening, '<');
    let three = pieces(head + opening + inner, '<');
    let parts = pieces(head + opening + inner + closing, '<');
    assert(two.len() == 7 && two[6] == tag);
    assert(two[1] == top[1] && two[2] == top[2] && two[4] == top[4]);
    assert(three.len() == list.len() + 6);
    assert(three[1] == two[1] && three[2] == two[2] && three[4] == two[4]);
    assert(three[6] == tag + list[0]);
    assert forall|j: int| 1 <= j < list.len() - 1 implies #[trigger] parts[6 + j] == list[j] by {
        assert(three[6 + j] == list[j]);
        assert(parts[6 + j] == three[6 + j]);
    }
}

/// A report reads back: split where tags open, it has the sheet's name, both counts, and for
/// each difference in turn its cell, its formula, the value in the file and the calculated one.
pub proof fn reports_read_back(audit: FormulaAuditView, index: int)
    ensures
        ({
            let parts = pieces(audit_report_of(audit), '<');
            let count = audit.inconsistencies.len();
            &&& begins_with(parts[1], "sheet name=\""@)
            &&& first_index(parts[1].skip(12), '"') is Some
            &&& unescaped(parts[1].skip(12).take(first_index(parts[1].skip(12), '"')->0))
                == audit.sheet
            &&& parts[2] == "uncached_values>"@ + decimal(audit.uncached_values)
            &&& parts[4] == "cached_matches>"@ + decimal(audit.cached_matches)
            &&& count == 0 ==> parts.len() == 7
            &&& count > 0 ==> parts.len() == 8 * count + 9
            &&& count > 0 ==> begins_with(
                parts[6],
                "inconsistencies count=\""@ + decimal(count) + seq!['"'],
            )
            &&& 0 <= index < count ==> ({
                let item = audit.inconsistencies[index];
                let cell = parts[8 * index + 7].skip(20);
                &&& begins_with(parts[8 * index + 7], "inconsistency cell=\""@)
                &&& first_index(cell, '"') is Some
                &&& unescaped(cell.take(first_index(cell, '"')->0)) == item.cell
                &&& begins_with(parts[8 * index + 8], "formula>"@)
                &&& unescaped(parts[8 * index + 8].skip(8)) == item.formula
                &&& begins_with(parts[8 * index + 10], "cached_value>"@)
                &&& unescaped(parts[8 * index + 10].skip(13)) == item.cached_value
                &&& begins_with(parts[8 * index + 12], "calculated_value>"@)
                &&& unescaped(parts[8 * index + 12].skip(17)) == item.calculated_value
            })
        }),
{
    let parts = pieces(audit_report_of(audit), '<');
    let count = audit.inconsistencies.len();
    lemma_head_words();
    lemma_attribute_reads_back("sheet name=\""@, audit.sheet, "\">\n  "@);
    if count == 0 {
        lemma_report_without_differences(audit);
    } else {
        lemma_report_with_differences(audit, index);
        if 0 <= index < count {
            let item = audit.inconsistencies[index];
            lemma_report_words();
            lemma_attribute_reads_back("inconsistency cell=\""@, item.cell, "\">\n      "@);
            lemma_text_reads_back("formula>"@, item.formula);
            lemma_text_reads_back("cached_value>"@, item.cached_value);
            lemma_text_reads_back("calculated_value>"@, item.calculated_value);
        }
    }
}

proof fn lemma_attribute_reads_back(begin: Seq<char>, value: Seq<char>, end: Seq<char>)
    requires
        end.len() > 0,
        end[0] == '"',
    ensures
        ({
            let tag = begin + escaped_xml_attr(value) + end;
            let rest = tag.skip(begin.len() as int);
            &&& begins_with(tag, begin)
            &&& first_index(rest, '"') is Some
            &&& unescaped(rest.take(first_index(rest, '"')->0)) == value
        }),
{
    let written = escaped_xml_attr(value);
    let tag = begin + written + end;
    let rest = tag.skip(begin.len() as int);
    escaped_text_stays_in_place(value);
    escaping_is_undone_by_reading(value);
    assert(tag.take(begin.len() as int) =~= begin);
    assert(rest =~= written + end);
    assert forall|i: int| 0 <= i < written.len() implies rest[i] != '"' by {
        assert(rest[i] == written[i]);
        assert(written.contains(written[i]));
    }
    assert(rest[written.len() as int] == end[0]);
    lemma_first_index_is(rest, '"', written.len() as int);
    assert(rest.take(written.len() as int) =~= written);
}

proof fn lemma_text_reads_back(begin: Seq<char>, text: Seq<char>)
    ensures
        begins_with(begin + escaped_xml_text(text), begin),
        unescaped((begin + escaped_xml_text(text)).skip(begin.len() as int)) == text,
{
    escaping_is_undone_by_reading(text);
    assert((begin + escaped_xml_text(text)).take(begin.len() as int) =~= begin);
    assert((begin + escaped_xml_text(text)).skip(begin.len() as int) =~= escaped_xml_text(text));
}

/// The exit code of an audit.
pub open spec fn exit_code_of(audits: Seq<FormulaAuditView>) -> i32 {
    if found_inconsistency(audits) {
        1
    } else {
        0
    }
}

/// An audit exits with zero exactly where no sheet has a difference, whatever else it counted,
/// and with one otherwise.
pub proof fn audits_without_difference_exit_with_zero(audits: Seq<FormulaAuditView>)
    ensures
        (forall|i: int| 0 <= i < audits.len() ==> (#[trigger] audits[i]).inconsistencies.len() == 0)
            <==> exit_code_of(audits) == 0,
        (exists|i: int| 0 <= i < audits.len() && (#[trigger] audits[i]).inconsistencies.len() > 0)
            <==> exit_code_of(audits) == 1,
{
}

} // verus!
