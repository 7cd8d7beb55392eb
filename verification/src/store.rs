//! The histogram store. The slices live in a `heatmap::Heatmap`; this module
//! declares that type, names what it holds, and makes the few calls into it
//! that the renderer needs. Nothing here is proved: each contract says what
//! the source of the `heatmap` crate shows.

use vstd::prelude::*;
use heatmap::Heatmap;
use crate::snapshot::{Bucket, Cells};

verus! {

/// `heatmap::Heatmap`, a fixed number of time slices with one histogram each.
/// Verus sees nothing inside it.
#[verifier::external_type_specification]
#[verifier::external_body]
pub struct ExHeatmap(heatmap::Heatmap);

/// What a heatmap holds: for each slice in time order, and for each bucket of
/// its histogram in order of value, the bucket's value and its count. This is
/// what walking the heatmap and then each slice's histogram yields.
pub uninterp spec fn heatmap_cells(h: Heatmap) -> Seq<Seq<(u64, u64)>>;

/// What `Heatmap::histogram_buckets` reports for a heatmap with at least one
/// slice: the number of buckets of the first slice's histogram.
pub uninterp spec fn heatmap_buckets(h: Heatmap) -> u64;

/// The duration of one slice of a heatmap, as it was configured: slice `i`
/// starts `i` durations after the heatmap's start.
pub uninterp spec fn heatmap_slice_duration(h: Heatmap) -> u64;

/// The layout of the histograms of a heatmap: the precision in significant
/// digits and the largest value that they were made to hold. The buckets of a
/// histogram, their number and their values, follow from these two.
pub uninterp spec fn heatmap_layout(h: Heatmap) -> (u32, u64);

/// The heatmap has the layout that this library builds: a precision of 2
/// digits for values up to 1 000 000 000, the default of the `heatmap` crate.
/// With this layout the last bucket that a walk visits lies inside the
/// histogram's storage; with others, a precision of 0 for one, it lies one
/// past the end.
pub open spec fn walkable(h: Heatmap) -> bool {
    heatmap_layout(h) == (2u32, 1_000_000_000u64)
}

/// The cells of a store as buckets.
pub open spec fn cells_of(pairs: Seq<Seq<(u64, u64)>>) -> Cells {
    Seq::new(
        pairs.len(),
        |y: int|
            Seq::new(pairs[y].len(), |x: int| Bucket { value: pairs[y][x].0, count: pairs[y][x].1 }),
    )
}

/// The rows of a vector of bucket rows.
pub open spec fn rows_of(rows: Seq<Vec<Bucket>>) -> Cells {
    Seq::new(rows.len(), |y: int| rows[y]@)
}

/// Calls `Heatmap::configure()`, sets precision, number of slices and slice
/// duration, and builds. The contract claims that the new heatmap has
/// `num_slices` slices of the given duration, that every bucket of every
/// slice is empty, and that its histograms have the given precision and the
/// crate's default largest value. The inputs on which the build would divide by zero or overflow are
/// left out, and the precision is held to the one value the renderer uses.
#[verifier::external_body]
pub(crate) fn new_heatmap(precision: u32, num_slices: usize, slice_duration: u64) -> (h: Heatmap)
    requires
        precision == 2,
        num_slices <= u32::MAX,
        slice_duration * num_slices <= u64::MAX,
    ensures
        heatmap_layout(h) == (precision, 1_000_000_000u64),
        heatmap_slice_duration(h) == slice_duration,
        heatmap_cells(h).len() == num_slices,
        forall|y: int, x: int|
            0 <= y < heatmap_cells(h).len() && 0 <= x < heatmap_cells(h)[y].len() ==> (
            #[trigger] heatmap_cells(h)[y][x]).1 == 0,
{
    Heatmap::configure()
        .precision(precision)
        .num_slices(num_slices)
        .slice_duration(slice_duration)
        .build()
        .unwrap()
}

/// Walks the heatmap slice by slice and each slice's histogram bucket by
/// bucket, copying value and count of each bucket. The contract claims that
/// the rows are what the heatmap holds.
#[verifier::external_body]
pub(crate) fn read_cells(h: &Heatmap) -> (rows: Vec<Vec<Bucket>>)
    requires
        walkable(*h),
    ensures
        rows_of(rows@) == cells_of(heatmap_cells(*h)),
{
    let mut rows = Vec::new();
    for slice in h {
        let histogram = slice.histogram();
        let mut row = Vec::new();
        for bucket in &histogram {
            row.push(Bucket { value: bucket.value(), count: bucket.count() });
        }
        rows.push(row);
    }
    rows
}

/// Calls `Heatmap::num_slices`. The contract claims that it is the number of
/// slices that walking the heatmap yields.
#[verifier::external_body]
pub(crate) fn slice_count(h: &Heatmap) -> (n: u64)
    ensures
        n == heatmap_cells(*h).len(),
{
    h.num_slices()
}

/// Calls `Heatmap::histogram_buckets`, which reads the first slice and so
/// needs one. The contract claims that the count it reports is the number of
/// buckets that a walk yields for every slice: the histograms of a heatmap
/// share one layout, and a walk of a histogram visits each of its buckets
/// once.
#[verifier::external_body]
pub(crate) fn bucket_count(h: &Heatmap) -> (n: u64)
    requires
        walkable(*h),
        heatmap_cells(*h).len() > 0,
    ensures
        n == heatmap_buckets(*h),
        forall|y: int| 0 <= y < heatmap_cells(*h).len() ==> (#[trigger] heatmap_cells(*h)[y]).len()
            == n,
{
    h.histogram_buckets()
}

} // verus!
