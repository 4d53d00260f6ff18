//! A bounded cache of rows that gives up the oldest row first.

use std::collections::{HashMap, VecDeque};

use vstd::prelude::*;

use crate::cell::{cells_view, CellData, CellView};

verus! {

broadcast use vstd::std_specs::hash::group_hash_axioms;

/// Rows that were read, at most `capacity` of them.
pub struct RowCache {
    rows: HashMap<usize, Vec<CellData>>,
    order: VecDeque<usize>,
    capacity: usize,
}

/// The mathematical content of a [`RowCache`].
#[verifier::ext_equal]
pub struct RowCacheView {
    pub rows: Map<usize, Seq<CellView>>,
    /// The rows in the order in which they came in.
    pub order: Seq<usize>,
    pub capacity: nat,
}

impl RowCacheView {
    /// Whether the order lists each row that is there, once, and the rows are
    /// not too many.
    pub open spec fn wf(self) -> bool {
        &&& self.order.no_duplicates()
        &&& forall|row: usize| self.rows.contains_key(row) <==> #[trigger] self.order.contains(row)
        &&& self.order.len() <= self.capacity
    }

    /// The cache with a row put in: a row that is there is replaced in its
    /// place, and a row that is one too many drives the oldest out.
    pub open spec fn inserted(self, row: usize, cells: Seq<CellView>) -> Self {
        if self.rows.contains_key(row) {
            RowCacheView { rows: self.rows.insert(row, cells), ..self }
        } else if self.order.len() < self.capacity {
            RowCacheView {
                rows: self.rows.insert(row, cells),
                order: self.order.push(row),
                ..self
            }
        } else {
            let order = self.order.push(row);
            RowCacheView {
                rows: self.rows.insert(row, cells).remove(order[0]),
                order: order.skip(1),
                ..self
            }
        }
    }

    /// The cache with rows put in one after the other.
    pub open spec fn inserted_all(self, rows: Seq<(usize, Seq<CellView>)>) -> Self
        decreases rows.len(),
    {
        if rows.len() == 0 {
            self
        } else {
            self.inserted_all(rows.drop_last()).inserted(rows.last().0, rows.last().1)
        }
    }
}

impl View for RowCache {
    type V = RowCacheView;

    closed spec fn view(&self) -> RowCacheView {
        RowCacheView {
            rows: self.rows@.map_values(|cells: Vec<CellData>| cells_view(cells@)),
            order: self.order@,
            capacity: self.capacity as nat,
        }
    }
}

/// The content of rows with their indices.
pub open spec fn indexed_rows_view(rows: Seq<(usize, Vec<CellData>)>) -> Seq<
    (usize, Seq<CellView>),
> {
    rows.map_values(|row: (usize, Vec<CellData>)| (row.0, cells_view(row.1@)))
}

/// A copy of a row of cells.
pub fn copy_cells(cells: &Vec<CellData>) -> (copy: Vec<CellData>)
    ensures
        cells_view(copy@) == cells_view(cells@),
{
    let ghost views = cells_view(cells@);
    let mut copy: Vec<CellData> = Vec::new();
    let mut index: usize = 0;
    assert(cells_view(copy@) =~= views.take(0));
    while index < cells.len()
        invariant
            index <= cells@.len(),
            views == cells_view(cells@),
            cells_view(copy@) == views.take(index as int),
        decreases cells@.len() - index,
    {
        let cell = cells[index].clone();
        let ghost before = copy@;
        copy.push(cell);
        assert(cells_view(copy@) =~= cells_view(before).push(cell@));
        index += 1;
        assert(cells_view(copy@) =~= views.take(index as int));
    }
    assert(views.take(index as int) == views);
    copy
}

/// A well-formed cache stays well-formed.
proof fn lemma_inserted_wf(cache: RowCacheView, row: usize, cells: Seq<CellView>)
    requires
        cache.wf(),
    ensures
        cache.inserted(row, cells).wf(),
{
    let after = cache.inserted(row, cells);
    if !cache.rows.contains_key(row) {
        assert(!cache.order.contains(row));
        let order = cache.order.push(row);
        assert(order.no_duplicates()) by {
            assert forall|i: int, j: int|
                0 <= i < order.len() && 0 <= j < order.len() && i != j implies order[i]
                != order[j] by {
                if i < cache.order.len() {
                    assert(cache.order.contains(cache.order[i]));
                }
                if j < cache.order.len() {
                    assert(cache.order.contains(cache.order[j]));
                }
            }
        }
        assert(forall|other: usize| #[trigger]
            order.contains(other) <==> cache.order.contains(other) || other == row) by {
            assert(order[cache.order.len() as int] == row);
            assert forall|other: usize| cache.order.contains(other) implies order.contains(
                other,
            ) by {
                let i = choose|i: int| 0 <= i < cache.order.len() && cache.order[i] == other;
                assert(order[i] == other);
            }
        }
        if cache.order.len() < cache.capacity {
        } else {
            let rest = order.skip(1);
            assert forall|other: usize| #[trigger] rest.contains(other) <==> order.contains(other)
                && other != order[0] by {
                if rest.contains(other) {
                    let i = choose|i: int| 0 <= i < rest.len() && rest[i] == other;
                    assert(order[i + 1] == other);
                }
                if order.contains(other) && other != order[0] {
                    let i = choose|i: int| 0 <= i < order.len() && order[i] == other;
                    assert(rest[i - 1] == other);
                }
            }
            assert(rest.no_duplicates()) by {
                assert forall|i: int, j: int|
                    0 <= i < rest.len() && 0 <= j < rest.len() && i != j implies rest[i]
                    != rest[j] by {
                    assert(order[i + 1] != order[j + 1]);
                }
            }
        }
    }
}

impl RowCache {
    /// An empty cache.
    pub fn new(capacity: usize) -> (cache: RowCache)
        ensures
            cache@ == (RowCacheView {
                rows: Map::empty(),
                order: Seq::empty(),
                capacity: capacity as nat,
            }),
            cache@.wf(),
    {
        let rows: HashMap<usize, Vec<CellData>> = HashMap::new();
        let order: VecDeque<usize> = VecDeque::new();
        proof {
            assert(rows@.map_values(|cells: Vec<CellData>| cells_view(cells@)) =~= Map::<
                usize,
                Seq<CellView>,
            >::empty());
            assert(order@ =~= Seq::<usize>::empty());
        }
        RowCache { rows, order, capacity }
    }

    /// A copy of a row that is in the cache.
    pub fn get(&self, row: usize) -> (cells: Option<Vec<CellData>>)
        ensures
            match cells {
                Some(cells) => self@.rows.contains_key(row) && self@.rows[row] == cells_view(
                    cells@,
                ),
                None => !self@.rows.contains_key(row),
            },
    {
        match self.rows.get(&row) {
            Some(cells) => Some(copy_cells(cells)),
            None => None,
        }
    }

    /// The cache's capacity.
    pub fn capacity(&self) -> (capacity: usize)
        ensures
            capacity == self@.capacity,
    {
        self.capacity
    }

    /// Puts a row into the cache.
    pub fn insert(&mut self, row: usize, cells: Vec<CellData>)
        requires
            old(self)@.wf(),
        ensures
            final(self)@ == old(self)@.inserted(row, cells_view(cells@)),
            final(self)@.wf(),
    {
        let ghost before = self@;
        let ghost added = cells_view(cells@);
        proof {
            lemma_inserted_wf(before, row, added);
        }
        let known = self.rows.contains_key(&row);
        self.rows.insert(row, cells);
        assert(self@.rows =~= before.rows.insert(row, added));
        if known {
            return;
        }
        self.order.push_back(row);
        if self.order.len() > self.capacity {
            if let Some(oldest) = self.order.pop_front() {
                self.rows.remove(&oldest);
                proof {
                    assert(oldest == before.order.push(row)[0]);
                    assert(self@.rows =~= before.rows.insert(row, added).remove(oldest));
                }
            }
        }
        assert(self@ =~= before.inserted(row, added));
    }

    /// Puts rows into the cache one after the other.
    pub fn insert_many(&mut self, rows: &Vec<(usize, Vec<CellData>)>)
        requires
            old(self)@.wf(),
        ensures
            final(self)@ == old(self)@.inserted_all(indexed_rows_view(rows@)),
            final(self)@.wf(),
    {
        let ghost before = self@;
        let ghost views = indexed_rows_view(rows@);
        let mut index: usize = 0;
        assert(views.take(0) == Seq::<(usize, Seq<CellView>)>::empty());
        while index < rows.len()
            invariant
                index <= rows@.len(),
                views == indexed_rows_view(rows@),
                self@ == before.inserted_all(views.take(index as int)),
                self@.wf(),
            decreases rows@.len() - index,
        {
            proof {
                assert(views.take(index + 1).drop_last() == views.take(index as int));
                assert(views.take(index + 1).last() == views[index as int]);
            }
            self.insert(rows[index].0, copy_cells(&rows[index].1));
            index += 1;
        }
        assert(views.take(index as int) == views);
    }
}

/// Putting a row in keeps the cache within its capacity; the row is there
/// afterwards unless the capacity is zero, and of the other rows at most the
/// oldest is given up.
pub proof fn inserting_evicts_the_oldest_row_at_most(
    cache: RowCacheView,
    row: usize,
    cells: Seq<CellView>,
)
    requires
        cache.wf(),
    ensures
        cache.inserted(row, cells).wf(),
        cache.capacity > 0 ==> cache.inserted(row, cells).rows.contains_key(row)
            && cache.inserted(row, cells).rows[row] == cells,
        forall|other: usize|
            other != row && #[trigger] cache.rows.contains_key(other) && (cache.order.len()
                < cache.capacity || cache.rows.contains_key(row) || other != cache.order[0])
                ==> cache.inserted(row, cells).rows.contains_key(other) && cache.inserted(
                row,
                cells,
            ).rows[other] == cache.rows[other],
{
    lemma_inserted_wf(cache, row, cells);
    if !cache.rows.contains_key(row) && cache.capacity > 0 {
        assert(!cache.order.contains(row));
        if cache.order.len() >= cache.capacity {
            assert(cache.order.contains(cache.order[0]));
            assert(cache.order.push(row)[0] == cache.order[0]);
        }
    }
}

} // verus!
