//! Where the annotations go. Rows on a minute boundary (every 60th row) carry
//! a time gridline, and along those rows the latency axis is marked wherever
//! a bucket reaches the next threshold of the label table. Each threshold is
//! used once for the whole image, in ascending order.

use vstd::prelude::*;
use vstd::string::*;
use crate::labels::{label, label_text, label_threshold, time_label, time_text, LABEL_COUNT};
use crate::snapshot::{Bucket, Cells, Snapshot};

verus! {

/// One annotation: a piece of text to draw and the gridline that goes with
/// it.
#[derive(Clone, Copy, Debug, PartialEq, Eq, Structural)]
pub enum Mark {
    /// The elapsed time of row `y`, drawn at the left edge of the row, and a
    /// horizontal line along the row.
    Time { y: usize },
    /// Entry `label` of the latency table, drawn at `(x, y)`, and a vertical
    /// line down column `x`.
    Latency { x: usize, y: usize, label: usize },
}

impl Mark {
    /// The label of a latency mark is an entry of the table.
    pub open spec fn wf(self) -> bool {
        match self {
            Mark::Time { .. } => true,
            Mark::Latency { label, .. } => label < LABEL_COUNT,
        }
    }

    /// The column of the top-left corner of the text.
    pub open spec fn spec_column(&self) -> usize {
        match *self {
            Mark::Time { .. } => 0,
            Mark::Latency { x, .. } => x,
        }
    }

    /// The row of the top-left corner of the text.
    pub open spec fn spec_row(&self) -> usize {
        match *self {
            Mark::Time { y } => y,
            Mark::Latency { y, .. } => y,
        }
    }

    /// The text to draw.
    pub open spec fn spec_text(self) -> Seq<char> {
        match self {
            Mark::Time { y } => time_label(y as nat),
            Mark::Latency { label, .. } => label_text(label as int),
        }
    }

    /// The column of the top-left corner of the text.
    #[verifier::when_used_as_spec(spec_column)]
    pub fn column(&self) -> (x: usize)
        ensures
            x == self.spec_column(),
    {
        match self {
            Mark::Time { .. } => 0,
            Mark::Latency { x, .. } => *x,
        }
    }

    /// The row of the top-left corner of the text.
    #[verifier::when_used_as_spec(spec_row)]
    pub fn row(&self) -> (y: usize)
        ensures
            y == self.spec_row(),
    {
        match self {
            Mark::Time { y } => *y,
            Mark::Latency { y, .. } => *y,
        }
    }

    /// The text to draw: `HH:MM` for a time mark, the table's text for a
    /// latency mark.
    pub fn text(&self) -> (text: String)
        requires
            self.wf(),
        ensures
            text@ == self.spec_text(),
    {
        match self {
            Mark::Time { y } => time_text(*y),
            Mark::Latency { label: l, .. } => String::from_str(label(*l).text),
        }
    }
}

/// Rows on a minute boundary carry the annotations.
pub open spec fn is_gridline_row(y: nat) -> bool {
    y % 60 == 0
}

/// A bucket reaches the threshold that `cursor` points at, and the table is
/// not used up.
pub open spec fn reaches(bucket: Bucket, cursor: nat) -> bool {
    cursor < LABEL_COUNT && bucket.value >= label_threshold(cursor as int)
}

/// The table cursor after the first `upto` buckets of a gridline row, having
/// entered the row at `cursor`. A bucket advances the cursor by at most one.
pub open spec fn row_cursor(row: Seq<Bucket>, cursor: nat, upto: nat) -> nat
    decreases upto,
{
    if upto == 0 {
        cursor
    } else {
        let before = row_cursor(row, cursor, (upto - 1) as nat);
        if reaches(row[upto - 1], before) {
            before + 1
        } else {
            before
        }
    }
}

/// The marks of the first `upto` buckets of gridline row `y`, entered with
/// the table cursor at `cursor`: the time mark at the first bucket, and a
/// latency mark at every bucket that reaches the threshold under the cursor.
pub open spec fn row_marks(row: Seq<Bucket>, y: nat, cursor: nat, upto: nat) -> Seq<Mark>
    decreases upto,
{
    if upto == 0 {
        Seq::empty()
    } else {
        let x = (upto - 1) as nat;
        let before = row_marks(row, y, cursor, x);
        let at = row_cursor(row, cursor, x);
        let timed = if x == 0 {
            before.push(Mark::Time { y: y as usize })
        } else {
            before
        };
        if reaches(row[x as int], at) {
            timed.push(Mark::Latency { x: x as usize, y: y as usize, label: at as usize })
        } else {
            timed
        }
    }
}

/// The table cursor after the first `upto` rows. Rows off the minute
/// boundaries leave it alone.
pub open spec fn cursor_after(cells: Cells, upto: nat) -> nat
    decreases upto,
{
    if upto == 0 {
        0
    } else {
        let y = (upto - 1) as nat;
        let before = cursor_after(cells, y);
        if is_gridline_row(y) {
            row_cursor(cells[y as int], before, cells[y as int].len())
        } else {
            before
        }
    }
}

/// The marks of the first `upto` rows, in drawing order.
pub open spec fn marks_upto(cells: Cells, upto: nat) -> Seq<Mark>
    decreases upto,
{
    if upto == 0 {
        Seq::empty()
    } else {
        let y = (upto - 1) as nat;
        let before = marks_upto(cells, y);
        if is_gridline_row(y) {
            before + row_marks(cells[y as int], y, cursor_after(cells, y), cells[y as int].len())
        } else {
            before
        }
    }
}

/// All marks of a snapshot, in drawing order.
pub open spec fn marks_of(cells: Cells) -> Seq<Mark> {
    marks_upto(cells, cells.len())
}

/// `mark` lies on `cells`: on a gridline row, at a bucket of that row, and a
/// latency mark at a bucket that reaches the threshold of its label.
pub open spec fn mark_on(cells: Cells, mark: Mark) -> bool {
    match mark {
        Mark::Time { y } => y < cells.len() && is_gridline_row(y as nat) && cells[y as int].len()
            > 0,
        Mark::Latency { x, y, label } => {
            &&& y < cells.len()
            &&& is_gridline_row(y as nat)
            &&& x < cells[y as int].len()
            &&& label < LABEL_COUNT
            &&& cells[y as int][x as int].value >= label_threshold(label as int)
        },
    }
}

impl Snapshot {
    /// The annotations of the snapshot in drawing order. Every mark lies on
    /// the snapshot.
    pub fn marks(&self) -> (plan: Vec<Mark>)
        ensures
            plan@ == marks_of(self@),
            forall|k: int| 0 <= k < plan.len() ==> mark_on(self@, #[trigger] plan[k]),
    {
        let mut plan: Vec<Mark> = Vec::new();
        let mut cursor: usize = 0;
        for y in 0..self.slices.len()
            invariant
                cursor == cursor_after(self@, y as nat),
                cursor <= LABEL_COUNT,
                plan@ == marks_upto(self@, y as nat),
                forall|k: int| 0 <= k < plan.len() ==> mark_on(self@, #[trigger] plan[k]),
        {
            if y % 60 == 0 {
                let row = &self.slices[y];
                let ghost entered = cursor as nat;
                let ghost earlier = plan@;
                for x in 0..row.len()
                    invariant
                        y < self.slices.len(),
                        y % 60 == 0,
                        row@ == self@[y as int],
                        cursor == row_cursor(row@, entered, x as nat),
                        cursor <= LABEL_COUNT,
                        plan@ == earlier + row_marks(row@, y as nat, entered, x as nat),
                        forall|k: int| 0 <= k < plan.len() ==> mark_on(self@, #[trigger] plan[k]),
                {
                    if x == 0 {
                        plan.push(Mark::Time { y });
                    }
                    if cursor < LABEL_COUNT {
                        if row[x].value >= label(cursor).threshold {
                            plan.push(Mark::Latency { x, y, label: cursor });
                            cursor += 1;
                        }
                    }
                    assert(plan@ =~= earlier + row_marks(row@, y as nat, entered, (x + 1) as nat));
                }
            }
        }
        plan
    }
}

/// Every mark of the first `upto` buckets of a gridline row lies on the cells.
proof fn lemma_row_marks_lie_on(cells: Cells, y: nat, cursor: nat, upto: nat, k: int)
    requires
        y < cells.len(),
        y <= usize::MAX,
        is_gridline_row(y),
        upto <= cells[y as int].len() <= usize::MAX,
        0 <= k < row_marks(cells[y as int], y, cursor, upto).len(),
    ensures
        mark_on(cells, row_marks(cells[y as int], y, cursor, upto)[k]),
    decreases upto,
{
    let row = cells[y as int];
    if upto > 0 {
        let x = (upto - 1) as nat;
        let before = row_marks(row, y, cursor, x);
        if k < before.len() {
            lemma_row_marks_lie_on(cells, y, cursor, x, k);
        }
    }
}

/// Every mark of the first `upto` rows lies on the cells.
proof fn lemma_marks_upto_lie_on(cells: Cells, upto: nat, k: int)
    requires
        upto <= cells.len() <= usize::MAX,
        forall|y: int| 0 <= y < cells.len() ==> (#[trigger] cells[y]).len() <= usize::MAX,
        0 <= k < marks_upto(cells, upto).len(),
    ensures
        mark_on(cells, marks_upto(cells, upto)[k]),
    decreases upto,
{
    if upto > 0 {
        let y = (upto - 1) as nat;
        let before = marks_upto(cells, y);
        if k < before.len() {
            lemma_marks_upto_lie_on(cells, y, k);
        } else {
            lemma_row_marks_lie_on(
                cells,
                y,
                cursor_after(cells, y),
                cells[y as int].len(),
                k - before.len(),
            );
        }
    }
}

/// Every mark of a snapshot lies on it: on a gridline row, at a bucket of
/// that row, and a latency mark where the bucket reaches the threshold of its
/// label. The cells are those of a snapshot in memory, so their counts fit
/// the machine.
pub proof fn lemma_marks_lie_on(cells: Cells, k: int)
    requires
        cells.len() <= usize::MAX,
        forall|y: int| 0 <= y < cells.len() ==> (#[trigger] cells[y]).len() <= usize::MAX,
        0 <= k < marks_of(cells).len(),
    ensures
        mark_on(cells, marks_of(cells)[k]),
{
    lemma_marks_upto_lie_on(cells, cells.len(), k);
}

/// The cursor only moves forward, by at most one entry for each bucket, and
/// never leaves the table.
pub proof fn lemma_row_cursor_bounds(row: Seq<Bucket>, cursor: nat, upto: nat)
    requires
        cursor <= LABEL_COUNT,
    ensures
        cursor <= row_cursor(row, cursor, upto) <= LABEL_COUNT,
        row_cursor(row, cursor, upto) <= cursor + upto,
    decreases upto,
{
    if upto > 0 {
        lemma_row_cursor_bounds(row, cursor, (upto - 1) as nat);
    }
}

/// The cursor after any number of rows is inside the table or at its end.
pub proof fn lemma_cursor_after_bounds(cells: Cells, upto: nat)
    ensures
        cursor_after(cells, upto) <= LABEL_COUNT,
    decreases upto,
{
    if upto > 0 {
        let y = (upto - 1) as nat;
        lemma_cursor_after_bounds(cells, y);
        lemma_row_cursor_bounds(cells[y as int], cursor_after(cells, y), cells[y as int].len());
    }
}

/// The entry of the table that a mark draws, if it is a latency mark.
pub open spec fn label_of(mark: Mark) -> Option<nat> {
    match mark {
        Mark::Time { .. } => None,
        Mark::Latency { label, .. } => Some(label as nat),
    }
}

/// The latency marks of a row use the entries from the cursor at which the
/// row was entered up to the cursor at which it was left, in ascending order.
proof fn lemma_row_labels(row: Seq<Bucket>, y: nat, cursor: nat, upto: nat)
    requires
        cursor <= LABEL_COUNT,
    ensures
        forall|k: int|
            #![trigger row_marks(row, y, cursor, upto)[k]]
            0 <= k < row_marks(row, y, cursor, upto).len() ==> match label_of(
                row_marks(row, y, cursor, upto)[k],
            ) {
                Some(l) => cursor <= l < row_cursor(row, cursor, upto),
                None => true,
            },
        forall|i: int, j: int|
            #![trigger row_marks(row, y, cursor, upto)[i], row_marks(row, y, cursor, upto)[j]]
            0 <= i < j < row_marks(row, y, cursor, upto).len() ==> match (
                label_of(row_marks(row, y, cursor, upto)[i]),
                label_of(row_marks(row, y, cursor, upto)[j]),
            ) {
                (Some(a), Some(b)) => a < b,
                _ => true,
            },
    decreases upto,
{
    if upto > 0 {
        let x = (upto - 1) as nat;
        lemma_row_labels(row, y, cursor, x);
        lemma_row_cursor_bounds(row, cursor, x);
        let before = row_marks(row, y, cursor, x);
        let all = row_marks(row, y, cursor, upto);
        assert(before.is_prefix_of(all)) by {
            lemma_row_marks_prefix(row, y, cursor, x, upto);
        }
        assert forall|k: int| 0 <= k < before.len() implies all[k] == before[k] by {}
        assert forall|k: int| 0 <= k < all.len() implies match label_of(#[trigger] all[k]) {
            Some(l) => cursor <= l < row_cursor(row, cursor, upto),
            None => true,
        } by {
            if k < before.len() {
                assert(all[k] == before[k]);
            }
        }
        assert forall|i: int, j: int| 0 <= i < j < all.len() implies match (
            label_of(#[trigger] all[i]),
            label_of(#[trigger] all[j]),
        ) {
            (Some(a), Some(b)) => a < b,
            _ => true,
        } by {
            if i < before.len() {
                assert(all[i] == before[i]);
                if j < before.len() {
                    assert(all[j] == before[j]);
                }
            } else {
                // Two marks of one bucket: the first of them is the time mark.
                assert(x == 0);
                assert(all[i] == (Mark::Time { y: y as usize }));
            }
        }
    }
}

/// The latency marks of the first rows use the entries of the table from the
/// first one up to the cursor, in ascending order.
proof fn lemma_labels_upto(cells: Cells, upto: nat)
    ensures
        forall|k: int|
            #![trigger marks_upto(cells, upto)[k]]
            0 <= k < marks_upto(cells, upto).len() ==> match label_of(marks_upto(cells, upto)[k]) {
                Some(l) => l < cursor_after(cells, upto),
                None => true,
            },
        forall|i: int, j: int|
            #![trigger marks_upto(cells, upto)[i], marks_upto(cells, upto)[j]]
            0 <= i < j < marks_upto(cells, upto).len() ==> match (
                label_of(marks_upto(cells, upto)[i]),
                label_of(marks_upto(cells, upto)[j]),
            ) {
                (Some(a), Some(b)) => a < b,
                _ => true,
            },
    decreases upto,
{
    if upto > 0 {
        let y = (upto - 1) as nat;
        lemma_labels_upto(cells, y);
        lemma_cursor_after_bounds(cells, y);
        let before = marks_upto(cells, y);
        let all = marks_upto(cells, upto);
        if is_gridline_row(y) {
            let row = cells[y as int];
            let entered = cursor_after(cells, y);
            let added = row_marks(row, y, entered, row.len());
            lemma_row_labels(row, y, entered, row.len());
            lemma_row_cursor_bounds(row, entered, row.len());
            assert(all == before + added);
            assert forall|k: int| 0 <= k < all.len() implies match label_of(#[trigger] all[k]) {
                Some(l) => l < cursor_after(cells, upto),
                None => true,
            } by {
                if k < before.len() {
                    assert(all[k] == before[k]);
                } else {
                    assert(all[k] == added[k - before.len()]);
                }
            }
            assert forall|i: int, j: int| 0 <= i < j < all.len() implies match (
                label_of(#[trigger] all[i]),
                label_of(#[trigger] all[j]),
            ) {
                (Some(a), Some(b)) => a < b,
                _ => true,
            } by {
                if j < before.len() {
                    assert(all[i] == before[i]);
                    assert(all[j] == before[j]);
                } else if i < before.len() {
                    assert(all[i] == before[i]);
                    assert(all[j] == added[j - before.len()]);
                } else {
                    assert(all[i] == added[i - before.len()]);
                    assert(all[j] == added[j - before.len()]);
                }
            }
        }
    }
}

/// Each entry of the label table is drawn at most once in an image, and the
/// entries are drawn in the order of the table: of two latency marks the
/// later one has the later entry.
pub proof fn lemma_labels_ascend(cells: Cells, i: int, j: int)
    requires
        0 <= i < j < marks_of(cells).len(),
        label_of(marks_of(cells)[i]) is Some,
        label_of(marks_of(cells)[j]) is Some,
    ensures
        label_of(marks_of(cells)[i])->Some_0 < label_of(marks_of(cells)[j])->Some_0
            < LABEL_COUNT,
{
    lemma_labels_upto(cells, cells.len());
    lemma_cursor_after_bounds(cells, cells.len());
    let marks = marks_upto(cells, cells.len());
    assert(match (label_of(marks[i]), label_of(marks[j])) {
        (Some(a), Some(b)) => a < b,
        _ => true,
    });
    assert(match label_of(marks[j]) {
        Some(l) => l < cursor_after(cells, cells.len()),
        None => true,
    });
}

/// Whatever the buckets hold, a snapshot whose first row has a bucket starts
/// with the time mark of row 0, whose text is `00:00`.
pub proof fn lemma_first_mark_is_time(cells: Cells)
    requires
        cells.len() > 0,
        cells[0].len() > 0,
    ensures
        marks_of(cells).len() > 0,
        marks_of(cells)[0] == (Mark::Time { y: 0 }),
        marks_of(cells)[0].spec_text() == "00:00"@,
{
    lemma_marks_prefix(cells, 1, cells.len());
    lemma_row_marks_prefix(cells[0], 0, 0, 1, cells[0].len());
    assert(marks_upto(cells, 0) =~= Seq::<Mark>::empty());
    let first_row = row_marks(cells[0], 0, 0, cells[0].len());
    assert(row_marks(cells[0], 0, 0, 0) =~= Seq::<Mark>::empty());
    assert(row_marks(cells[0], 0, 0, 1)[0] == (Mark::Time { y: 0 }));
    assert(marks_upto(cells, 1) =~= first_row);
    crate::labels::lemma_first_time_label();
}

/// The marks of fewer buckets of a row are a prefix of the marks of more.
pub proof fn lemma_row_marks_prefix(row: Seq<Bucket>, y: nat, cursor: nat, fewer: nat, more: nat)
    requires
        fewer <= more,
    ensures
        row_marks(row, y, cursor, fewer).is_prefix_of(row_marks(row, y, cursor, more)),
    decreases more,
{
    if fewer < more {
        lemma_row_marks_prefix(row, y, cursor, fewer, (more - 1) as nat);
    }
}

/// The marks of fewer rows are a prefix of the marks of more.
pub proof fn lemma_marks_prefix(cells: Cells, fewer: nat, more: nat)
    requires
        fewer <= more,
    ensures
        marks_upto(cells, fewer).is_prefix_of(marks_upto(cells, more)),
    decreases more,
{
    if fewer < more {
        lemma_marks_prefix(cells, fewer, (more - 1) as nat);
    }
}

} // verus!
