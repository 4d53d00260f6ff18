//! Parquet files: which rows are read together and where they are displayed.

use vstd::prelude::*;

use crate::cache::{
    copy_cells, indexed_rows_view, inserting_evicts_the_oldest_row_at_most, RowCache, RowCacheView,
};
use crate::cell::{
    cell_rows_view, cells_view, empty_cell, plain_style, CellData, CellRawValue, CellStyle, CellView,
};

verus! {

/// How many rows are kept in memory.
pub const PARQUET_ROW_CACHE_CAPACITY: usize = 2_048;

/// How many rows are read together.
pub const PARQUET_ROW_WINDOW_SIZE: usize = 256;

/// A run of rows that a file stores together.
#[derive(Debug, Clone, Copy, PartialEq, Eq, Structural)]
pub struct ParquetRowGroup {
    pub start_row: usize,
    pub row_count: usize,
}

/// The rows of the first groups together.
pub open spec fn total_rows(counts: Seq<usize>) -> nat
    decreases counts.len(),
{
    if counts.len() == 0 {
        0
    } else {
        total_rows(counts.drop_last()) + counts.last() as nat
    }
}

/// The row counts of groups.
pub open spec fn counts_of(groups: Seq<ParquetRowGroup>) -> Seq<usize> {
    groups.map_values(|group: ParquetRowGroup| group.row_count)
}

/// Whether each group begins where the groups before it end.
pub open spec fn gapless(groups: Seq<ParquetRowGroup>) -> bool {
    forall|i: int|
        0 <= i < groups.len() ==> (#[trigger] groups[i]).start_row == total_rows(
            counts_of(groups).take(i),
        )
}

/// Whether a row lies in a group.
pub open spec fn in_group(group: ParquetRowGroup, row: int) -> bool {
    group.start_row <= row < group.start_row + group.row_count
}

/// More groups have no fewer rows.
proof fn lemma_total_rows(counts: Seq<usize>, length: int)
    requires
        0 <= length <= counts.len(),
    ensures
        total_rows(counts.take(length)) <= total_rows(counts),
    decreases counts.len() - length,
{
    if length == counts.len() {
        assert(counts.take(length) == counts);
    } else {
        lemma_total_rows(counts, length + 1);
        assert(counts.take(length + 1).drop_last() == counts.take(length));
    }
}

/// Places groups one behind the other.
pub fn place_row_groups(counts: &Vec<usize>) -> (groups: Vec<ParquetRowGroup>)
    requires
        total_rows(counts@) <= usize::MAX,
    ensures
        counts_of(groups@) == counts@,
        gapless(groups@),
{
    let mut groups: Vec<ParquetRowGroup> = Vec::new();
    let mut start_row: usize = 0;
    let mut index: usize = 0;
    while index < counts.len()
        invariant
            index <= counts@.len(),
            total_rows(counts@) <= usize::MAX,
            groups@.len() == index,
            start_row == total_rows(counts@.take(index as int)),
            forall|i: int| 0 <= i < index ==> (#[trigger] groups@[i]).row_count == counts@[i],
            forall|i: int|
                0 <= i < index ==> (#[trigger] groups@[i]).start_row == total_rows(
                    counts@.take(i),
                ),
        decreases counts@.len() - index,
    {
        proof {
            lemma_total_rows(counts@, index + 1);
            assert(counts@.take(index + 1).drop_last() == counts@.take(index as int));
        }
        groups.push(ParquetRowGroup { start_row, row_count: counts[index] });
        start_row = start_row + counts[index];
        index += 1;
    }
    assert(counts_of(groups@) =~= counts@);
    groups
}

/// Groups begin in order.
proof fn lemma_starts_in_order(groups: Seq<ParquetRowGroup>, i: int, j: int)
    requires
        gapless(groups),
        0 <= i < j < groups.len(),
    ensures
        groups[i].start_row + groups[i].row_count <= groups[j].start_row,
    decreases j - i,
{
    let counts = counts_of(groups);
    assert(counts.take(j).take(i + 1) == counts.take(i + 1));
    lemma_total_rows(counts.take(j), i + 1);
    assert(counts.take(i + 1).drop_last() == counts.take(i));
    assert(counts.take(i + 1).last() == groups[i].row_count);
}

/// The group that holds a row, with its index, where one does.
pub fn row_group_for_data_row(groups: &Vec<ParquetRowGroup>, data_row: usize) -> (group: Option<
    (usize, ParquetRowGroup),
>)
    requires
        gapless(groups@),
        total_rows(counts_of(groups@)) <= usize::MAX,
    ensures
        match group {
            Some((index, group)) => index < groups@.len() && groups@[index as int] == group
                && in_group(group, data_row as int),
            None => data_row >= total_rows(counts_of(groups@)),
        },
        group is Some ==> data_row < total_rows(counts_of(groups@)),
{
    let ghost counts = counts_of(groups@);
    let mut low: usize = 0;
    let mut high: usize = groups.len();
    while low < high
        invariant
            low <= high <= groups@.len(),
            gapless(groups@),
            forall|i: int| 0 <= i < low ==> (#[trigger] groups@[i]).start_row <= data_row,
            forall|i: int|
                high <= i < groups@.len() ==> (#[trigger] groups@[i]).start_row > data_row,
        decreases high - low,
    {
        let middle: usize = low + (high - low) / 2;
        if groups[middle].start_row <= data_row {
            proof {
                assert forall|i: int| 0 <= i < middle + 1 implies (
                #[trigger] groups@[i]).start_row <= data_row by {
                    if i < middle {
                        lemma_starts_in_order(groups@, i, middle as int);
                    }
                }
            }
            low = middle + 1;
        } else {
            proof {
                assert forall|i: int| middle <= i < groups@.len() implies (
                #[trigger] groups@[i]).start_row > data_row by {
                    if i > middle {
                        lemma_starts_in_order(groups@, middle as int, i);
                    }
                }
            }
            high = middle;
        }
    }
    if low == 0 {
        proof {
            if groups@.len() > 0 {
                assert(counts.take(0) == Seq::<usize>::empty());
                assert(groups@[0].start_row == 0);
            } else {
                assert(counts == Seq::<usize>::empty());
            }
        }
        return None;
    }
    let index: usize = low - 1;
    let group = groups[index];
    proof {
        lemma_total_rows(counts, low as int);
        assert(counts.take(low as int).drop_last() == counts.take(index as int));
        assert(counts.take(low as int).last() == group.row_count);
        if low == groups@.len() {
            assert(counts.take(low as int) == counts);
        } else {
            assert(groups@[low as int].start_row == total_rows(counts.take(low as int)));
            assert(groups@[low as int].start_row > data_row);
        }
    }
    if data_row < group.start_row + group.row_count {
        Some((index, group))
    } else {
        None
    }
}

/// A run of rows of a group that are read or passed over.
#[derive(Debug, Clone, Copy, PartialEq, Eq, Structural)]
pub struct RowRun {
    pub row_count: usize,
    pub skip: bool,
}

/// The rows that runs read, given the row at which the first run begins.
pub open spec fn rows_read(runs: Seq<RowRun>, first: int) -> Set<int>
    decreases runs.len(),
{
    if runs.len() == 0 {
        Set::empty()
    } else {
        let run = runs[0];
        let rest = rows_read(runs.skip(1), first + run.row_count);
        if run.skip {
            rest
        } else {
            Set::new(|row: int| first <= row < first + run.row_count).union(rest)
        }
    }
}

/// The rows that runs span.
pub open spec fn rows_spanned(runs: Seq<RowRun>) -> nat
    decreases runs.len(),
{
    if runs.len() == 0 {
        0
    } else {
        rows_spanned(runs.drop_last()) + runs.last().row_count as nat
    }
}

/// The runs that read some rows of a group and pass over the rest.
pub open spec fn runs_for(start_row: nat, row_count: nat, group_len: nat) -> Seq<RowRun> {
    let before = if start_row > 0 {
        seq![RowRun { row_count: start_row as usize, skip: true }]
    } else {
        Seq::empty()
    };
    let read = if row_count > 0 {
        before.push(RowRun { row_count: row_count as usize, skip: false })
    } else {
        before
    };
    if group_len > start_row + row_count {
        read.push(
            RowRun { row_count: (group_len - start_row - row_count) as usize, skip: true },
        )
    } else {
        read
    }
}

/// The runs that read some rows of a group and pass over the rest.
pub fn row_selection_for_range(start_row: usize, row_count: usize, row_group_len: usize) -> (runs:
    Vec<RowRun>)
    requires
        start_row + row_count <= usize::MAX,
    ensures
        runs@ == runs_for(start_row as nat, row_count as nat, row_group_len as nat),
{
    let mut runs: Vec<RowRun> = Vec::new();
    if start_row > 0 {
        runs.push(RowRun { row_count: start_row, skip: true });
    }
    if row_count > 0 {
        runs.push(RowRun { row_count, skip: false });
    }
    let end: usize = start_row + row_count;
    if row_group_len > end {
        runs.push(RowRun { row_count: row_group_len - end, skip: true });
    }
    assert(runs@ =~= runs_for(start_row as nat, row_count as nat, row_group_len as nat));
    runs
}

/// The runs for a range read exactly the rows of the range and span the group.
pub proof fn runs_read_the_range_only(start_row: nat, row_count: nat, group_len: nat)
    requires
        start_row + row_count <= group_len <= usize::MAX,
    ensures
        rows_read(runs_for(start_row, row_count, group_len), 0) == Set::new(
            |row: int| start_row <= row < start_row + row_count,
        ),
        rows_spanned(runs_for(start_row, row_count, group_len)) == group_len,
{
    let runs = runs_for(start_row, row_count, group_len);
    reveal_with_fuel(rows_read, 4);
    reveal_with_fuel(rows_spanned, 4);
    assert(rows_read(runs, 0) =~= Set::new(
        |row: int| start_row <= row < start_row + row_count,
    ));
}

/// The rows that are read together with a wanted row.
pub struct RowWindow {
    pub group: usize,
    /// The row of the group at which the window begins.
    pub start_in_group: usize,
    pub row_count: usize,
    /// The row of the file at which the window begins.
    pub first_row: usize,
    pub runs: Vec<RowRun>,
}

/// Plans the reading of a row together with its neighbors: the groups are read in
/// windows of a fixed size, the last window of a group up to the group's end.
pub fn plan_window(groups: &Vec<ParquetRowGroup>, data_row: usize) -> (window: Option<RowWindow>)
    requires
        gapless(groups@),
        total_rows(counts_of(groups@)) <= usize::MAX,
    ensures
        window is Some <==> data_row < total_rows(counts_of(groups@)),
        window matches Some(window) ==> {
            let group = groups@[window.group as int];
            &&& window.group < groups@.len()
            &&& in_group(group, data_row as int)
            &&& window.start_in_group % PARQUET_ROW_WINDOW_SIZE == 0
            &&& window.start_in_group <= data_row - group.start_row < window.start_in_group
                + window.row_count
            &&& window.row_count == if group.row_count - window.start_in_group
                < PARQUET_ROW_WINDOW_SIZE {
                group.row_count - window.start_in_group
            } else {
                PARQUET_ROW_WINDOW_SIZE as int
            }
            &&& window.first_row == group.start_row + window.start_in_group
            &&& window.runs@ == runs_for(
                window.start_in_group as nat,
                window.row_count as nat,
                group.row_count as nat,
            )
        },
{
    let (index, group) = match row_group_for_data_row(groups, data_row) {
        Some(found) => found,
        None => {
            return None;
        },
    };
    let row_in_group: usize = data_row - group.start_row;
    let start_in_group: usize = (row_in_group / PARQUET_ROW_WINDOW_SIZE) * PARQUET_ROW_WINDOW_SIZE;
    let left: usize = group.row_count - start_in_group;
    let row_count: usize = if left < PARQUET_ROW_WINDOW_SIZE {
        left
    } else {
        PARQUET_ROW_WINDOW_SIZE
    };
    let runs = row_selection_for_range(start_in_group, row_count, group.row_count);
    let first_row: usize = group.start_row + start_in_group;
    Some(RowWindow { group: index, start_in_group, row_count, first_row, runs })
}

/// How many rows a sheet has: the data rows below a header row, if there are
/// columns at all.
pub open spec fn sheet_rows(data_rows: nat, columns: nat) -> nat {
    if columns == 0 {
        data_rows
    } else if data_rows == usize::MAX {
        data_rows
    } else {
        data_rows + 1
    }
}

/// How many rows a sheet has.
pub fn sheet_row_count(data_row_count: usize, col_count: usize) -> (count: usize)
    ensures
        count == sheet_rows(data_row_count as nat, col_count as nat),
{
    if col_count == 0 || data_row_count == usize::MAX {
        data_row_count
    } else {
        data_row_count + 1
    }
}

/// The data row that is displayed in a row of the sheet; none in the header row.
pub fn data_row_for(row: usize, col_count: usize) -> (data_row: Option<usize>)
    ensures
        data_row == if col_count == 0 {
            Some(row)
        } else if row == 0 {
            None
        } else {
            Some((row - 1) as usize)
        },
        data_row == data_row_in(row as nat, col_count as nat),
{
    if col_count == 0 {
        Some(row)
    } else if row == 0 {
        None
    } else {
        Some(row - 1)
    }
}

/// The cell of a header row: the name of the column in bold.
pub open spec fn header_cell_of(name: Option<Seq<char>>) -> CellView {
    match name {
        Some(name) => CellView {
            value: name,
            raw_value: CellRawValue::Text,
            style: CellStyle { bold: true, ..plain_style() },
            ..empty_cell()
        },
        None => empty_cell(),
    }
}

/// The cell of a header row; an empty cell where there is no such column.
pub fn header_cell(names: &Vec<String>, col: usize) -> (cell: CellData)
    ensures
        cell@ == header_cell_of(if col < names@.len() {
            Some(names@[col as int]@)
        } else {
            None
        }),
{
    let mut cell = CellData::default();
    if col < names.len() {
        cell.value = names[col].clone();
        cell.raw_value = CellRawValue::Text;
        cell.style.bold = true;
    }
    cell
}

/// Rows numbered from a first one on.
pub open spec fn numbered(first_row: int, rows: Seq<Seq<CellView>>) -> Seq<(usize, Seq<CellView>)> {
    Seq::new(rows.len(), |i: int| ((first_row + i) as usize, rows[i]))
}

/// Takes the rows of a window into the cache.
pub fn cache_window(cache: &mut RowCache, first_row: usize, rows: Vec<Vec<CellData>>)
    requires
        old(cache)@.wf(),
        first_row + rows@.len() <= usize::MAX,
    ensures
        final(cache)@ == old(cache)@.inserted_all(
            numbered(first_row as int, cell_rows_view(rows@)),
        ),
        final(cache)@.wf(),
{
    let ghost expected = numbered(first_row as int, cell_rows_view(rows@));
    let mut numbered_rows: Vec<(usize, Vec<CellData>)> = Vec::new();
    let mut index: usize = 0;
    while index < rows.len()
        invariant
            index <= rows@.len(),
            first_row + rows@.len() <= usize::MAX,
            expected == numbered(first_row as int, cell_rows_view(rows@)),
            indexed_rows_view(numbered_rows@) == expected.take(index as int),
        decreases rows@.len() - index,
    {
        let ghost before = numbered_rows@;
        let copy = copy_cells(&rows[index]);
        numbered_rows.push((first_row + index, copy));
        assert(expected[index as int] == ((first_row + index) as usize, cells_view(copy@)));
        index += 1;
        assert(indexed_rows_view(numbered_rows@) =~= indexed_rows_view(before).push(
            (numbered_rows@.last().0, cells_view(copy@)),
        ));
        assert(indexed_rows_view(numbered_rows@) =~= expected.take(index as int));
    }
    assert(expected.take(index as int) =~= expected);
    cache.insert_many(&numbered_rows);
}

/// How many rows of a cache are younger than one that is there.
spec fn younger(cache: RowCacheView, row: usize) -> int {
    cache.order.len() - 1 - cache.order.index_of(row)
}

/// A row gets at most one more younger row with each that is put in, and stays as
/// long as its younger rows are fewer than the cache can hold besides.
proof fn lemma_row_stays(cache: RowCacheView, row: usize, other: usize, cells: Seq<CellView>)
    requires
        cache.wf(),
        cache.rows.contains_key(row),
        row != other,
        younger(cache, row) + 1 < cache.capacity,
    ensures
        cache.inserted(other, cells).rows.contains_key(row),
        cache.inserted(other, cells).rows[row] == cache.rows[row],
        younger(cache.inserted(other, cells), row) <= younger(cache, row) + 1,
{
    inserting_evicts_the_oldest_row_at_most(cache, other, cells);
    let after = cache.inserted(other, cells);
    assert(cache.order.contains(row));
    let place = cache.order.index_of(row);
    assert(cache.order[place] == row);
    if !cache.rows.contains_key(other) {
        let order = cache.order.push(other);
        if cache.order.len() < cache.capacity {
            assert(after.order[place] == row);
            assert(after.order.contains(row));
            assert(after.order[after.order.index_of(row)] == row);
            assert(after.order.index_of(row) == place);
        } else {
            assert(place > 0);
            assert(order.skip(1)[place - 1] == row);
            assert(after.order[place - 1] == row);
            assert(after.order.contains(row));
            assert(after.order[after.order.index_of(row)] == row);
            assert(after.order.index_of(row) == place - 1);
            assert(cache.order[0] != row);
        }
    }
}

/// What is known of a wanted row while the rows of a window come in.
spec fn window_progress(
    cache: RowCacheView,
    first_row: int,
    rows: Seq<Seq<CellView>>,
    wanted: int,
    count: int,
) -> bool {
    let now = cache.inserted_all(numbered(first_row, rows).take(count));
    let row = (first_row + wanted) as usize;
    &&& now.wf()
    &&& now.capacity == cache.capacity
    &&& if count <= wanted {
        !now.rows.contains_key(row)
    } else {
        now.rows.contains_key(row) && now.rows[row] == rows[wanted] && younger(now, row) < count
            - wanted
    }
}

proof fn lemma_window_progress(
    cache: RowCacheView,
    first_row: int,
    rows: Seq<Seq<CellView>>,
    wanted: int,
    count: int,
)
    requires
        cache.wf(),
        0 <= first_row,
        first_row + rows.len() <= usize::MAX,
        rows.len() <= cache.capacity,
        0 <= wanted < rows.len(),
        !cache.rows.contains_key((first_row + wanted) as usize),
        0 <= count <= rows.len(),
    ensures
        window_progress(cache, first_row, rows, wanted, count),
    decreases count,
{
    let all = numbered(first_row, rows);
    if count == 0 {
        assert(all.take(0) =~= Seq::<(usize, Seq<CellView>)>::empty());
    } else {
        lemma_window_progress(cache, first_row, rows, wanted, count - 1);
        let before = cache.inserted_all(all.take(count - 1));
        assert(all.take(count).drop_last() =~= all.take(count - 1));
        assert(all.take(count).last() == all[count - 1]);
        let (row, cells) = all[count - 1];
        let now = before.inserted(row, cells);
        inserting_evicts_the_oldest_row_at_most(before, row, cells);
        let wanted_row = (first_row + wanted) as usize;
        if count - 1 < wanted {
            assert(row != wanted_row);
        } else if count - 1 == wanted {
            assert(now.order.last() == wanted_row);
            assert(now.order[now.order.len() - 1] == wanted_row);
            assert(now.order.contains(wanted_row));
            assert(now.order[now.order.index_of(wanted_row)] == wanted_row);
            assert(now.order.index_of(wanted_row) == now.order.len() - 1);
        } else {
            assert(row != wanted_row);
            lemma_row_stays(before, wanted_row, row, cells);
        }
    }
}

/// A row that was not in the cache is there, as it was read, once the window that
/// it lies in was taken in, if the window is no larger than the cache.
pub proof fn wanted_rows_are_cached(
    cache: RowCacheView,
    first_row: int,
    rows: Seq<Seq<CellView>>,
    wanted: int,
)
    requires
        cache.wf(),
        0 <= first_row,
        first_row + rows.len() <= usize::MAX,
        rows.len() <= cache.capacity,
        0 <= wanted < rows.len(),
        !cache.rows.contains_key((first_row + wanted) as usize),
    ensures
        ({
            let now = cache.inserted_all(numbered(first_row, rows));
            now.rows.contains_key((first_row + wanted) as usize) && now.rows[(first_row
                + wanted) as usize] == rows[wanted]
        }),
{
    lemma_window_progress(cache, first_row, rows, wanted, rows.len() as int);
    assert(numbered(first_row, rows).take(rows.len() as int) =~= numbered(first_row, rows));
}

/// A column's name is displayed as text in bold letters; beside the last column nothing is.
pub proof fn column_names_are_displayed_in_bold(name: Seq<char>)
    ensures
        header_cell_of(Some(name)).value == name,
        header_cell_of(Some(name)).raw_value == CellRawValue::Text,
        header_cell_of(Some(name)).style.bold,
        header_cell_of(Some(name)).formula is None,
        header_cell_of(Some(name)).display_format is None,
        header_cell_of(None).value == Seq::<char>::empty(),
        !header_cell_of(None).style.bold,
{
}

/// The rows of a window are numbered from its first row on, in their order.
pub proof fn window_rows_are_numbered_in_order(first_row: int, rows: Seq<Seq<CellView>>, index: int)
    requires
        0 <= first_row,
        0 <= index < rows.len(),
        first_row + rows.len() <= usize::MAX,
    ensures
        numbered(first_row, rows).len() == rows.len(),
        numbered(first_row, rows)[index].0 == first_row + index,
        numbered(first_row, rows)[index].1 == rows[index],
{
}

/// Where there are columns a sheet has a row for their names on top of the rows of data, if the
/// count can hold it.
pub proof fn names_take_a_row(data_rows: nat, columns: nat)
    requires
        data_rows <= usize::MAX,
    ensures
        columns == 0 ==> sheet_rows(data_rows, columns) == data_rows,
        columns > 0 && data_rows < usize::MAX ==> sheet_rows(data_rows, columns) == data_rows + 1,
        sheet_rows(data_rows, columns) <= usize::MAX,
        sheet_rows(data_rows, columns) >= data_rows,
{
}

/// The data row in a row of the sheet.
pub open spec fn data_row_in(row: nat, columns: nat) -> Option<usize> {
    if columns == 0 {
        Some(row as usize)
    } else if row == 0 {
        None
    } else {
        Some((row - 1) as usize)
    }
}

/// Every data row is displayed in exactly one row of the sheet: below the names, and in its
/// order. Only the row of the names displays none.
pub proof fn data_rows_stand_below_the_names(data_rows: nat, columns: nat, row: nat, data_row: nat)
    requires
        data_rows < usize::MAX,
        row < sheet_rows(data_rows, columns),
        data_row < data_rows,
    ensures
        data_row_in(row, columns) is None <==> columns > 0 && row == 0,
        data_row_in(row, columns) is Some ==> data_row_in(row, columns)->0 < data_rows,
        data_row_in(row, columns) == Some(data_row as usize) <==> row == data_row + (
        if columns == 0 {
            0nat
        } else {
            1nat
        }),
        data_row + (if columns == 0 {
            0nat
        } else {
            1nat
        }) < sheet_rows(data_rows, columns),
{
}

} // verus!
