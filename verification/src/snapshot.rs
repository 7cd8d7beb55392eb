//! A histogram store read out into plain values: one row of buckets per time
//! slice, in time order, each row in order of latency. The passes of the
//! renderer walk a snapshot as often as they need.

use vstd::prelude::*;
use crate::color::{hsl_from_value, hsl_of, Hsl};

verus! {

/// One latency bucket of one slice: the lower bound of its range in
/// nanoseconds and the number of observations that fell into it.
#[derive(Clone, Copy, Debug, PartialEq, Eq, Structural)]
pub struct Bucket {
    pub value: u64,
    pub count: u64,
}

/// The cells of a snapshot: rows of buckets.
pub type Cells = Seq<Seq<Bucket>>;

/// The slices of a store with their buckets.
pub struct Snapshot {
    pub slices: Vec<Vec<Bucket>>,
}

impl View for Snapshot {
    type V = Cells;

    open spec fn view(&self) -> Cells {
        Seq::new(self.slices.len() as nat, |y: int| self.slices[y]@)
    }
}

/// The larger of two counts.
pub open spec fn larger(a: u64, b: u64) -> u64 {
    if a >= b {
        a
    } else {
        b
    }
}

/// The largest count in the first `upto` buckets of a row, 0 for none.
pub open spec fn row_max(row: Seq<Bucket>, upto: nat) -> u64
    decreases upto,
{
    if upto == 0 {
        0
    } else {
        larger(row_max(row, (upto - 1) as nat), row[upto - 1].count)
    }
}

/// The largest count in the first `upto` rows, 0 for none.
pub open spec fn cells_max(cells: Cells, upto: nat) -> u64
    decreases upto,
{
    if upto == 0 {
        0
    } else {
        larger(cells_max(cells, (upto - 1) as nat), row_max(cells[upto - 1], cells[upto - 1].len()))
    }
}

/// The largest count of any bucket, 0 where there is no bucket.
pub open spec fn max_count(cells: Cells) -> u64 {
    cells_max(cells, cells.len())
}

/// `m` is the largest count of any bucket of `cells`: no bucket holds more,
/// and some bucket holds `m` unless `m` is 0.
pub open spec fn is_max_count(cells: Cells, m: u64) -> bool {
    &&& forall|y: int, x: int|
        0 <= y < cells.len() && 0 <= x < cells[y].len() ==> (#[trigger] cells[y][x]).count <= m
    &&& m == 0 || exists|y: int, x: int|
        0 <= y < cells.len() && 0 <= x < cells[y].len() && (#[trigger] cells[y][x]).count == m
}

/// Every row of `cells` has `width` buckets.
pub open spec fn is_rectangular(cells: Cells, width: nat) -> bool {
    forall|y: int| 0 <= y < cells.len() ==> (#[trigger] cells[y]).len() == width
}

/// The rows of a vector of colour rows.
pub open spec fn shade_rows(rows: Seq<Vec<Hsl>>) -> Seq<Seq<Hsl>> {
    Seq::new(rows.len(), |y: int| rows[y]@)
}

/// The colours of `cells` on a ramp scaled to `max`, cell by cell.
pub open spec fn shades_of(cells: Cells, max: u64) -> Seq<Seq<Hsl>> {
    Seq::new(
        cells.len(),
        |y: int| Seq::new(cells[y].len(), |x: int| hsl_of(cells[y][x].count, max)),
    )
}

proof fn lemma_row_max(row: Seq<Bucket>, upto: nat)
    requires
        upto <= row.len(),
    ensures
        forall|x: int| 0 <= x < upto ==> (#[trigger] row[x]).count <= row_max(row, upto),
        row_max(row, upto) == 0 || exists|x: int|
            0 <= x < upto && (#[trigger] row[x]).count == row_max(row, upto),
    decreases upto,
{
    if upto > 0 {
        lemma_row_max(row, (upto - 1) as nat);
        let m = row_max(row, upto);
        if m != 0 {
            if m == row[upto - 1].count {
                assert(row[upto - 1].count == m);
            } else {
                let x = choose|x: int|
                    0 <= x < upto - 1 && (#[trigger] row[x]).count == row_max(
                        row,
                        (upto - 1) as nat,
                    );
                assert(row[x].count == m);
            }
        }
    }
}

proof fn lemma_cells_max(cells: Cells, upto: nat)
    requires
        upto <= cells.len(),
    ensures
        forall|y: int, x: int|
            0 <= y < upto && 0 <= x < cells[y].len() ==> (#[trigger] cells[y][x]).count
                <= cells_max(cells, upto),
        cells_max(cells, upto) == 0 || exists|y: int, x: int|
            0 <= y < upto && 0 <= x < cells[y].len() && (#[trigger] cells[y][x]).count
                == cells_max(cells, upto),
    decreases upto,
{
    if upto > 0 {
        let last = cells[upto - 1];
        lemma_cells_max(cells, (upto - 1) as nat);
        lemma_row_max(last, last.len());
        let m = cells_max(cells, upto);
        if m != 0 {
            if m == row_max(last, last.len()) {
                let x = choose|x: int|
                    0 <= x < last.len() && (#[trigger] last[x]).count == row_max(last, last.len());
                assert(cells[upto - 1][x].count == m);
            } else {
                let (y, x) = choose|y: int, x: int|
                    0 <= y < upto - 1 && 0 <= x < cells[y].len() && (#[trigger] cells[y][x]).count
                        == cells_max(cells, (upto - 1) as nat);
                assert(cells[y][x].count == m);
            }
        }
    }
}

/// `max_count` is the true maximum: no bucket holds more, and some bucket
/// holds exactly that many unless it is 0.
pub proof fn lemma_max_count_is_max(cells: Cells)
    ensures
        is_max_count(cells, max_count(cells)),
{
    lemma_cells_max(cells, cells.len());
}

/// There is one maximum: whatever meets `is_max_count` is `max_count`.
pub proof fn lemma_max_count_unique(cells: Cells, m: u64)
    requires
        is_max_count(cells, m),
    ensures
        m == max_count(cells),
{
    lemma_max_count_is_max(cells);
    let top = max_count(cells);
    if m != 0 {
        let (y, x) = choose|y: int, x: int|
            0 <= y < cells.len() && 0 <= x < cells[y].len() && (#[trigger] cells[y][x]).count == m;
        assert(cells[y][x].count <= top);
    }
    if top != 0 {
        let (y, x) = choose|y: int, x: int|
            0 <= y < cells.len() && 0 <= x < cells[y].len() && (#[trigger] cells[y][x]).count
                == top;
        assert(cells[y][x].count <= m);
    }
}

/// Where every bucket is empty, and where there is no bucket at all, the
/// maximum is 0.
pub proof fn lemma_max_of_empty_is_zero(cells: Cells)
    requires
        forall|y: int, x: int|
            0 <= y < cells.len() && 0 <= x < cells[y].len() ==> (#[trigger] cells[y][x]).count
                == 0,
    ensures
        max_count(cells) == 0,
{
    assert(is_max_count(cells, 0));
    lemma_max_count_unique(cells, 0);
}

impl Snapshot {
    /// The largest count of any bucket, 0 for a snapshot without
    /// observations.
    pub fn find_max(&self) -> (max: u64)
        ensures
            max == max_count(self@),
            is_max_count(self@, max),
    {
        let mut max: u64 = 0;
        for y in 0..self.slices.len()
            invariant
                max == cells_max(self@, y as nat),
        {
            let row = &self.slices[y];
            let mut top: u64 = 0;
            for x in 0..row.len()
                invariant
                    top == row_max(row@, x as nat),
            {
                if row[x].count > top {
                    top = row[x].count;
                }
            }
            if top > max {
                max = top;
            }
        }
        proof {
            lemma_max_count_is_max(self@);
        }
        max
    }

    /// Whether every slice has `width` buckets.
    pub fn is_rectangular(&self, width: usize) -> (ok: bool)
        ensures
            ok == is_rectangular(self@, width as nat),
    {
        for y in 0..self.slices.len()
            invariant
                forall|j: int| 0 <= j < y ==> (#[trigger] self@[j]).len() == width,
        {
            if self.slices[y].len() != width {
                assert(self@[y as int].len() != width);
                return false;
            }
        }
        true
    }

    /// The colour of every cell on the ramp scaled to the largest count of
    /// the snapshot.
    pub fn shades(&self) -> (shades: Vec<Vec<Hsl>>)
        ensures
            shade_rows(shades@) == shades_of(self@, max_count(self@)),
    {
        let max = self.find_max();
        let mut shades: Vec<Vec<Hsl>> = Vec::new();
        for y in 0..self.slices.len()
            invariant
                max == max_count(self@),
                shades.len() == y,
                forall|j: int| 0 <= j < y ==> (#[trigger] shades[j])@ == shades_of(self@, max)[j],
        {
            let row = &self.slices[y];
            let mut line: Vec<Hsl> = Vec::new();
            for x in 0..row.len()
                invariant
                    line.len() == x,
                    forall|i: int| 0 <= i < x ==> #[trigger] line[i] == hsl_of(row[i].count, max),
            {
                line.push(hsl_from_value(row[x].count, max));
            }
            assert(line@ =~= shades_of(self@, max)[y as int]);
            shades.push(line);
        }
        assert(shade_rows(shades@) =~= shades_of(self@, max));
        shades
    }
}

} // verus!
