//! The grid as a renderer takes it: every slot with its intensity bucket,
//! under a header of month labels and separators.

use crate::counts::CommitCounts;
use crate::calendar::Date;
use crate::day::CalendarDay;
use crate::grid::{Slot, WeekRow};
use crate::intensity::{bucket_of, classify, IntensityBucket};
use crate::labels::{label_months, month_labels, month_separators};
use vstd::multiset::Multiset;
use vstd::prelude::*;

verus! {

/// One cell of the heatmap.
#[derive(Clone, Copy, Debug, PartialEq, Eq)]
pub enum RenderCell {
    /// No day of the year: painted in a neutral way, not as a day without commits.
    Blank,
    /// A day of the year and the bucket of its commit count.
    Cell(CalendarDay, IntensityBucket),
}

/// The heatmap, ready to paint.
#[derive(Clone, Debug, PartialEq, Eq)]
pub struct RenderGrid {
    /// One column for each week, each with a cell for each slot of the week.
    pub columns: Vec<Vec<RenderCell>>,
    /// The month label above each column, if it has one.
    pub labels: Vec<Option<u32>>,
    /// Whether a separator stands between a column and the next.
    pub separators: Vec<bool>,
}

/// The cell of a slot: a blank stays blank, and a day gets the bucket of its
/// count.
pub open spec fn cell_of(slot: Slot, counts: Multiset<Date>) -> RenderCell {
    match slot {
        Slot::Blank => RenderCell::Blank,
        Slot::InYear(d) => RenderCell::Cell(d, bucket_of(counts.count(d@))),
    }
}

/// The column of a week, cell for slot.
pub open spec fn column_of(row: WeekRow, counts: Multiset<Date>) -> Seq<RenderCell> {
    row.slots@.map_values(|slot: Slot| cell_of(slot, counts))
}

impl RenderGrid {
    /// The grid is the one assembled from the rows, counts, labels and
    /// separators.
    pub open spec fn assembled_from(
        self,
        rows: Seq<WeekRow>,
        counts: Multiset<Date>,
        labels: Seq<Option<u32>>,
        separators: Seq<bool>,
    ) -> bool {
        &&& self.columns@.len() == rows.len()
        &&& forall|r: int|
            0 <= r < rows.len() ==> (#[trigger] self.columns@[r])@ == column_of(rows[r], counts)
        &&& self.labels@ == labels
        &&& self.separators@ == separators
    }

    /// The columns line up with their header: a label for each column and a
    /// separator for each pair of neighbouring columns.
    pub open spec fn aligned(self) -> bool {
        &&& self.labels@.len() == self.columns@.len()
        &&& self.separators@.len() == (if self.columns@.len() == 0 {
            0int
        } else {
            self.columns@.len() - 1
        })
    }

    /// Two grids hold the same cells, labels and separators.
    pub open spec fn same_as(self, other: RenderGrid) -> bool {
        &&& self.columns@.len() == other.columns@.len()
        &&& forall|r: int|
            0 <= r < self.columns@.len() ==> (#[trigger] self.columns@[r])@ == other.columns@[r]@
        &&& self.labels@ == other.labels@
        &&& self.separators@ == other.separators@
    }
}

/// Puts the heatmap together: each slot of each week becomes a cell, a day
/// with the bucket of its count, and the labels and separators go on top
/// as given.
pub fn assemble(
    grid: &Vec<WeekRow>,
    counts: &CommitCounts,
    labels: Vec<Option<u32>>,
    separators: Vec<bool>,
) -> (out: RenderGrid)
    ensures
        out.assembled_from(grid@, counts@, labels@, separators@),
        labels@.len() == grid@.len() && separators@.len() == (if grid@.len() == 0 {
            0int
        } else {
            grid@.len() - 1
        }) ==> out.aligned(),
{
    let mut columns: Vec<Vec<RenderCell>> = Vec::new();
    let mut r: usize = 0;
    while r < grid.len()
        invariant
            r <= grid.len(),
            columns@.len() == r,
            forall|k: int|
                0 <= k < r ==> (#[trigger] columns@[k])@ == column_of(grid@[k], counts@),
        decreases grid.len() - r,
    {
        let row = &grid[r];
        let mut column: Vec<RenderCell> = Vec::new();
        let mut c: usize = 0;
        while c < row.slots.len()
            invariant
                c <= row.slots.len(),
                column@.len() == c,
                forall|k: int|
                    0 <= k < c ==> #[trigger] column@[k] == cell_of(row.slots@[k], counts@),
            decreases row.slots.len() - c,
        {
            let cell = match row.slots[c] {
                Slot::Blank => RenderCell::Blank,
                Slot::InYear(day) => RenderCell::Cell(day, classify(counts.get(&day))),
            };
            column.push(cell);
            c += 1;
        }
        assert(column@ =~= column_of(*row, counts@));
        columns.push(column);
        r += 1;
    }
    RenderGrid { columns, labels, separators }
}

/// The heatmap of the weeks and counts: the cells of all the weeks under
/// the month labels and separators that the weeks call for.
pub fn heatmap(grid: &Vec<WeekRow>, counts: &CommitCounts) -> (out: RenderGrid)
    ensures
        out.assembled_from(grid@, counts@, month_labels(grid@), month_separators(grid@)),
        out.aligned(),
{
    let (labels, separators) = label_months(grid);
    assemble(grid, counts, labels, separators)
}

/// Assembling twice from the same rows, counts, labels and separators gives
/// the same grid.
pub proof fn lemma_assemble_again(
    a: RenderGrid,
    b: RenderGrid,
    rows: Seq<WeekRow>,
    counts: Multiset<Date>,
    labels: Seq<Option<u32>>,
    separators: Seq<bool>,
)
    requires
        a.assembled_from(rows, counts, labels, separators),
        b.assembled_from(rows, counts, labels, separators),
    ensures
        a.same_as(b),
{
}

} // verus!
