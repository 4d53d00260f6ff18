//! Merged cells and frozen panes of a sheet.

use vstd::prelude::*;

use crate::range::{CellCoord, CellRange};

verus! {

/// How many rows and columns at the start of a sheet stay in view.
#[derive(Debug, Clone, Copy, PartialEq, Eq, Structural)]
pub struct SheetFreeze {
    pub rows: usize,
    pub columns: usize,
}

impl Default for SheetFreeze {
    fn default() -> (freeze: Self)
        ensures
            freeze == (SheetFreeze { rows: 0, columns: 0 }),
    {
        SheetFreeze { rows: 0, columns: 0 }
    }
}

/// How a cell takes part in a merged region.
#[derive(Debug, Clone, Copy, PartialEq, Eq, Structural)]
pub enum MergeKind {
    /// In no region.
    Unmerged,
    /// The upper left cell of a region; it carries the content.
    Anchor,
    /// Hidden underneath a region.
    Covered,
}

/// The merged regions of a sheet.
#[derive(Debug)]
pub struct SheetMerges {
    regions: Vec<CellRange>,
}

/// The regions by their upper left and lower right corners.
pub open spec fn ordered_ranges(ranges: Seq<CellRange>) -> Seq<CellRange> {
    ranges.map_values(|range: CellRange| range.ordered())
}

/// The first region that has the cell as its upper left corner.
pub open spec fn region_anchored_at(regions: Seq<CellRange>, coord: CellCoord) -> Option<CellRange>
    decreases regions.len(),
{
    if regions.len() == 0 {
        None
    } else if regions[0].start == coord {
        Some(regions[0])
    } else {
        region_anchored_at(regions.skip(1), coord)
    }
}

/// The upper left corner of the first region that hides the cell.
pub open spec fn anchor_covering(regions: Seq<CellRange>, coord: CellCoord) -> Option<CellCoord>
    decreases regions.len(),
{
    if regions.len() == 0 {
        None
    } else if regions[0].has_cell(coord.row as int, coord.col as int) && regions[0].start
        != coord {
        Some(regions[0].start)
    } else {
        anchor_covering(regions.skip(1), coord)
    }
}

/// How a cell takes part in the regions.
pub open spec fn merge_kind_of(regions: Seq<CellRange>, coord: CellCoord) -> MergeKind {
    if region_anchored_at(regions, coord) is Some {
        MergeKind::Anchor
    } else if anchor_covering(regions, coord) is Some {
        MergeKind::Covered
    } else {
        MergeKind::Unmerged
    }
}

/// The cell that a cell stands for: the anchor of the region that hides it, or
/// itself.
pub open spec fn standing_for(regions: Seq<CellRange>, coord: CellCoord) -> CellCoord {
    match anchor_covering(regions, coord) {
        Some(anchor) => anchor,
        None => coord,
    }
}

impl View for SheetMerges {
    type V = Seq<CellRange>;

    closed spec fn view(&self) -> Seq<CellRange> {
        self.regions@
    }
}

impl Default for SheetMerges {
    fn default() -> (merges: Self)
        ensures
            merges@ == Seq::<CellRange>::empty(),
    {
        SheetMerges { regions: Vec::new() }
    }
}

impl Clone for SheetMerges {
    fn clone(&self) -> (copy: Self)
        ensures
            copy@ == self@,
    {
        let mut regions: Vec<CellRange> = Vec::new();
        let mut index: usize = 0;
        while index < self.regions.len()
            invariant
                index <= self.regions@.len(),
                regions@ == self.regions@.take(index as int),
            decreases self.regions@.len() - index,
        {
            regions.push(self.regions[index]);
            index += 1;
            assert(regions@ =~= self.regions@.take(index as int));
        }
        assert(self.regions@.take(index as int) == self.regions@);
        SheetMerges { regions }
    }
}

impl SheetMerges {
    /// The regions that a sheet merges, in the order they are given.
    pub fn from_ranges(ranges: Vec<CellRange>) -> (merges: SheetMerges)
        ensures
            merges@ == ordered_ranges(ranges@),
    {
        let mut regions: Vec<CellRange> = Vec::new();
        let mut index: usize = 0;
        while index < ranges.len()
            invariant
                index <= ranges@.len(),
                regions@ == ordered_ranges(ranges@.take(index as int)),
            decreases ranges@.len() - index,
        {
            regions.push(ranges[index].normalized());
            index += 1;
            assert(regions@ =~= ordered_ranges(ranges@.take(index as int)));
        }
        assert(ranges@.take(index as int) == ranges@);
        SheetMerges { regions }
    }

    /// The merged regions.
    pub fn regions(&self) -> (regions: &Vec<CellRange>)
        ensures
            regions@ == self@,
    {
        &self.regions
    }

    /// The region that has the cell as its upper left corner.
    pub fn anchor_at(&self, row: usize, col: usize) -> (region: Option<CellRange>)
        ensures
            region == region_anchored_at(self@, CellCoord { row, col }),
    {
        let coord = CellCoord { row, col };
        assert(self.regions@.skip(0) == self.regions@);
        let mut index: usize = 0;
        while index < self.regions.len()
            invariant
                index <= self.regions@.len(),
                coord == (CellCoord { row, col }),
                region_anchored_at(self.regions@, coord) == region_anchored_at(
                    self.regions@.skip(index as int),
                    coord,
                ),
            decreases self.regions@.len() - index,
        {
            let region = self.regions[index];
            assert(self.regions@.skip(index as int)[0] == region);
            assert(self.regions@.skip(index as int).skip(1) == self.regions@.skip(index + 1));
            if region.start.row == row && region.start.col == col {
                return Some(region);
            }
            index += 1;
        }
        None
    }

    /// The upper left corner of the region that hides the cell.
    pub fn covered_anchor(&self, row: usize, col: usize) -> (anchor: Option<CellCoord>)
        ensures
            anchor == anchor_covering(self@, CellCoord { row, col }),
    {
        let coord = CellCoord { row, col };
        assert(self.regions@.skip(0) == self.regions@);
        let mut index: usize = 0;
        while index < self.regions.len()
            invariant
                index <= self.regions@.len(),
                coord == (CellCoord { row, col }),
                anchor_covering(self.regions@, coord) == anchor_covering(
                    self.regions@.skip(index as int),
                    coord,
                ),
            decreases self.regions@.len() - index,
        {
            let region = self.regions[index];
            assert(self.regions@.skip(index as int)[0] == region);
            assert(self.regions@.skip(index as int).skip(1) == self.regions@.skip(index + 1));
            if region.contains(row, col) && !(region.start.row == row && region.start.col == col) {
                return Some(region.start);
            }
            index += 1;
        }
        None
    }

    /// How a cell takes part in the merged regions.
    pub fn merge_kind(&self, row: usize, col: usize) -> (kind: MergeKind)
        ensures
            kind == merge_kind_of(self@, CellCoord { row, col }),
    {
        if self.anchor_at(row, col).is_some() {
            MergeKind::Anchor
        } else if self.covered_anchor(row, col).is_some() {
            MergeKind::Covered
        } else {
            MergeKind::Unmerged
        }
    }

    /// The cell that a cell stands for.
    pub fn anchor_coord(&self, coord: CellCoord) -> (anchor: CellCoord)
        ensures
            anchor == standing_for(self@, coord),
    {
        match self.covered_anchor(coord.row, coord.col) {
            Some(anchor) => anchor,
            None => coord,
        }
    }
}

/// Whether no cell lies in two of the regions.
pub open spec fn apart(regions: Seq<CellRange>) -> bool {
    forall|i: int, j: int, row: int, col: int|
        0 <= i < regions.len() && 0 <= j < regions.len() && #[trigger] regions[i].has_cell(row, col)
            && #[trigger] regions[j].has_cell(row, col) ==> i == j
}

proof fn lemma_anchored(regions: Seq<CellRange>, coord: CellCoord)
    ensures
        match region_anchored_at(regions, coord) {
            Some(region) => exists|i: int|
                0 <= i < regions.len() && #[trigger] regions[i] == region && region.start == coord,
            None => forall|i: int|
                0 <= i < regions.len() ==> (#[trigger] regions[i]).start != coord,
        },
    decreases regions.len(),
{
    if regions.len() > 0 && regions[0].start != coord {
        let rest = regions.skip(1);
        lemma_anchored(rest, coord);
        match region_anchored_at(rest, coord) {
            Some(region) => {
                let i = choose|i: int|
                    0 <= i < rest.len() && #[trigger] rest[i] == region && region.start == coord;
                assert(regions[i + 1] == rest[i]);
            },
            None => {
                assert forall|i: int| 0 <= i < regions.len() implies (#[trigger] regions[i]).start
                    != coord by {
                    if i > 0 {
                        assert(rest[i - 1] == regions[i]);
                    }
                }
            },
        }
    } else if regions.len() > 0 {
        assert(regions[0].start == coord);
    }
}

proof fn lemma_covering(regions: Seq<CellRange>, coord: CellCoord)
    ensures
        match anchor_covering(regions, coord) {
            Some(anchor) => anchor != coord && exists|i: int|
                0 <= i < regions.len() && (#[trigger] regions[i]).start == anchor
                    && regions[i].has_cell(coord.row as int, coord.col as int),
            None => forall|i: int|
                0 <= i < regions.len() && (#[trigger] regions[i]).has_cell(
                    coord.row as int,
                    coord.col as int,
                ) ==> regions[i].start == coord,
        },
    decreases regions.len(),
{
    if regions.len() > 0 {
        let rest = regions.skip(1);
        lemma_covering(rest, coord);
        if !(regions[0].has_cell(coord.row as int, coord.col as int) && regions[0].start
            != coord) {
            match anchor_covering(rest, coord) {
                Some(anchor) => {
                    let i = choose|i: int|
                        0 <= i < rest.len() && (#[trigger] rest[i]).start == anchor
                            && rest[i].has_cell(coord.row as int, coord.col as int);
                    assert(regions[i + 1] == rest[i]);
                },
                None => {
                    assert forall|i: int|
                        0 <= i < regions.len() && (#[trigger] regions[i]).has_cell(
                            coord.row as int,
                            coord.col as int,
                        ) implies regions[i].start == coord by {
                        if i > 0 {
                            assert(rest[i - 1] == regions[i]);
                        }
                    }
                },
            }
        }
    }
}

/// Where regions do not overlap, the anchor that a cell stands for stands for
/// itself: going to the anchor twice is going there once.
pub proof fn anchors_stand_for_themselves(regions: Seq<CellRange>, coord: CellCoord)
    requires
        apart(regions),
        forall|i: int| 0 <= i < regions.len() ==> (#[trigger] regions[i]).ordered() == regions[i],
    ensures
        standing_for(regions, standing_for(regions, coord)) == standing_for(regions, coord),
        anchor_covering(regions, coord) is Some ==> merge_kind_of(regions, coord)
            == MergeKind::Covered,
{
    lemma_covering(regions, coord);
    if let Some(anchor) = anchor_covering(regions, coord) {
        let i = choose|i: int|
            0 <= i < regions.len() && (#[trigger] regions[i]).start == anchor
                && regions[i].has_cell(coord.row as int, coord.col as int);
        assert(regions[i].ordered() == regions[i]);
        assert(regions[i].has_cell(anchor.row as int, anchor.col as int));
        lemma_covering(regions, anchor);
        if let Some(other) = anchor_covering(regions, anchor) {
            let j = choose|j: int|
                0 <= j < regions.len() && (#[trigger] regions[j]).start == other
                    && regions[j].has_cell(anchor.row as int, anchor.col as int);
            assert(i == j);
        }
        lemma_anchored(regions, coord);
        if let Some(region) = region_anchored_at(regions, coord) {
            let k = choose|k: int|
                0 <= k < regions.len() && #[trigger] regions[k] == region && region.start == coord;
            assert(regions[k].ordered() == regions[k]);
            assert(regions[k].has_cell(coord.row as int, coord.col as int));
            assert(i == k);
        }
    }
}

/// A cell is an anchor where a region starts at it, covered where a region holds it that starts
/// elsewhere, and unmerged where no region holds it. What stands for it starts a region that
/// holds it, or is the cell itself.
pub proof fn regions_decide_what_a_cell_is(regions: Seq<CellRange>, coord: CellCoord)
    requires
        forall|i: int| 0 <= i < regions.len() ==> (#[trigger] regions[i]).ordered() == regions[i],
    ensures
        merge_kind_of(regions, coord) == MergeKind::Anchor <==> exists|i: int|
            0 <= i < regions.len() && (#[trigger] regions[i]).start == coord,
        merge_kind_of(regions, coord) == MergeKind::Unmerged <==> forall|i: int|
            0 <= i < regions.len() ==> !(#[trigger] regions[i]).has_cell(
                coord.row as int,
                coord.col as int,
            ),
        region_anchored_at(regions, coord) is Some ==> regions.contains(
            region_anchored_at(regions, coord)->0,
        ) && region_anchored_at(regions, coord)->0.start == coord,
        standing_for(regions, coord) != coord ==> exists|i: int|
            0 <= i < regions.len() && (#[trigger] regions[i]).start == standing_for(regions, coord)
                && regions[i].has_cell(coord.row as int, coord.col as int),
        standing_for(regions, coord) == coord ==> forall|i: int|
            0 <= i < regions.len() && (#[trigger] regions[i]).has_cell(
                coord.row as int,
                coord.col as int,
            ) ==> regions[i].start == coord,
{
    lemma_covering(regions, coord);
    lemma_anchored(regions, coord);
    if let Some(region) = region_anchored_at(regions, coord) {
        let k = choose|k: int|
            0 <= k < regions.len() && #[trigger] regions[k] == region && region.start == coord;
        assert(regions[k].ordered() == regions[k]);
        assert(regions[k].has_cell(coord.row as int, coord.col as int));
    }
    assert forall|i: int| 0 <= i < regions.len() && (#[trigger] regions[i]).start == coord implies regions[i].has_cell(
        coord.row as int,
        coord.col as int,
    ) by {
        assert(regions[i].ordered() == regions[i]);
    }
}

} // verus!
