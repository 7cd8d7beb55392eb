//! The waterfall: a heatmap of latency histograms and the rendering of it.
//!
//! A `Config` says how many slices the heatmap has and how long each lasts;
//! `build` makes the `Waterfall`. Rendering reads the heatmap into a
//! `Snapshot` and works on that.

use vstd::prelude::*;
use heatmap::Heatmap;
use crate::color::ColorRgb;
use crate::image::ImageBuffer;
use crate::image::is_grid;
use crate::render::{render, render_outcome, grid_of, grids_of, RenderError};
use crate::snapshot::{is_rectangular, max_count, Cells, Snapshot};
use crate::store::{
    bucket_count, cells_of, heatmap_buckets, heatmap_cells, heatmap_slice_duration, new_heatmap,
    read_cells, slice_count, walkable,
};

verus! {

/// A heatmap of latency histograms, one histogram per time slice.
pub struct Waterfall {
    pub heatmap: Heatmap,
}

/// How a `Waterfall` is made: the number of slices (rows of the image), the
/// precision of the histograms in significant digits, and the duration of a
/// slice.
pub struct Config {
    num_slices: usize,
    precision: u32,
    slice_duration: u64,
}

impl Default for Config {
    /// 300 slices of duration 1 at a precision of 2 digits.
    fn default() -> (config: Config)
        ensures
            config.spec_num_slices() == 300,
            config.spec_precision() == 2,
            config.spec_slice_duration() == 1,
    {
        Config { precision: 2, num_slices: 300, slice_duration: 1 }
    }
}

impl Config {
    pub closed spec fn spec_num_slices(&self) -> usize {
        self.num_slices
    }

    pub closed spec fn spec_precision(&self) -> u32 {
        self.precision
    }

    pub closed spec fn spec_slice_duration(&self) -> u64 {
        self.slice_duration
    }

    /// A heatmap can be built from this configuration: the precision is the
    /// one the renderer uses, and the time span of all slices together can be
    /// counted.
    pub open spec fn buildable(&self) -> bool {
        &&& self.spec_precision() == 2
        &&& self.spec_num_slices() <= u32::MAX
        &&& self.spec_slice_duration() * self.spec_num_slices() <= u64::MAX
    }

    /// Whether a heatmap can be built from this configuration.
    #[verifier::when_used_as_spec(buildable)]
    pub fn can_build(&self) -> (ok: bool)
        ensures
            ok == self.buildable(),
    {
        if self.precision != 2 || self.num_slices as u128 > u32::MAX as u128 {
            return false;
        }
        let duration: u128 = self.slice_duration as u128;
        let slices: u128 = self.num_slices as u128;
        assert(duration * slices <= 0xffff_ffff_ffff_ffff * 0xffff_ffff) by (nonlinear_arith)
            requires
                duration <= 0xffff_ffff_ffff_ffff,
                slices <= 0xffff_ffff,
        ;
        duration * slices <= u64::MAX as u128
    }

    /// The default configuration.
    pub fn new() -> (config: Config)
        ensures
            config.spec_num_slices() == 300,
            config.spec_precision() == 2,
            config.spec_slice_duration() == 1,
            config.buildable(),
    {
        Config::default()
    }

    /// Sets the number of slices.
    pub fn num_slices(&mut self, count: usize) -> (config: &mut Self)
        ensures
            config.spec_num_slices() == count,
            config.spec_precision() == old(self).spec_precision(),
            config.spec_slice_duration() == old(self).spec_slice_duration(),
            *final(self) == *final(config),
    {
        self.num_slices = count;
        self
    }

    /// Sets the duration of a slice.
    pub fn slice_duration(&mut self, value: u64) -> (config: &mut Self)
        ensures
            config.spec_slice_duration() == value,
            config.spec_precision() == old(self).spec_precision(),
            config.spec_num_slices() == old(self).spec_num_slices(),
            *final(self) == *final(config),
    {
        self.slice_duration = value;
        self
    }

    /// Builds the waterfall: a heatmap of `num_slices` slices with no
    /// observations.
    pub fn build(self) -> (waterfall: Waterfall)
        requires
            self.buildable(),
        ensures
            waterfall.wf(),
            waterfall.cells().len() == self.spec_num_slices(),
            waterfall.slice_duration() == self.spec_slice_duration(),
            max_count(waterfall.cells()) == 0,
    {
        Waterfall::configured(self)
    }
}

impl Default for Waterfall {
    /// The waterfall of the default configuration.
    fn default() -> (waterfall: Waterfall)
        ensures
            waterfall.wf(),
            waterfall.cells().len() == 300,
            waterfall.slice_duration() == 1,
            max_count(waterfall.cells()) == 0,
    {
        Waterfall::configured(Config::default())
    }
}

impl Waterfall {
    /// The heatmap has the layout that `build` gives it, so that it can be
    /// walked. Adding observations to the heatmap keeps it so.
    pub open spec fn wf(&self) -> bool {
        walkable(self.heatmap)
    }

    /// The duration of one slice, one row of the image.
    pub open spec fn slice_duration(&self) -> u64 {
        heatmap_slice_duration(self.heatmap)
    }

    /// What the heatmap holds, as buckets.
    pub open spec fn cells(&self) -> Cells {
        cells_of(heatmap_cells(self.heatmap))
    }

    /// The width of the image: the number of buckets that the heatmap
    /// reports, 0 for a heatmap without slices.
    pub open spec fn spec_width(&self) -> int {
        if self.cells().len() > 0 {
            heatmap_buckets(self.heatmap) as int
        } else {
            0
        }
    }

    /// The waterfall of the default configuration.
    pub fn new() -> (waterfall: Waterfall)
        ensures
            waterfall.wf(),
            waterfall.cells().len() == 300,
            waterfall.slice_duration() == 1,
            max_count(waterfall.cells()) == 0,
    {
        Waterfall::default()
    }

    /// The default configuration, to be changed and built.
    pub fn configure() -> (config: Config)
        ensures
            config.spec_num_slices() == 300,
            config.spec_precision() == 2,
            config.spec_slice_duration() == 1,
            config.buildable(),
    {
        Config::default()
    }

    fn configured(config: Config) -> (waterfall: Waterfall)
        requires
            config.buildable(),
        ensures
            waterfall.wf(),
            waterfall.cells().len() == config.spec_num_slices(),
            waterfall.slice_duration() == config.spec_slice_duration(),
            max_count(waterfall.cells()) == 0,
    {
        let heatmap = new_heatmap(config.precision, config.num_slices, config.slice_duration);
        let waterfall = Waterfall { heatmap };
        proof {
            crate::snapshot::lemma_max_of_empty_is_zero(waterfall.cells());
        }
        waterfall
    }

    /// Reads the heatmap out: every slice with its buckets.
    pub fn snapshot(&self) -> (snapshot: Snapshot)
        requires
            self.wf(),
        ensures
            snapshot@ == self.cells(),
    {
        let snapshot = Snapshot { slices: read_cells(&self.heatmap) };
        assert(snapshot@ =~= crate::store::rows_of(snapshot.slices@));
        snapshot
    }

    /// The largest count of any bucket of any slice, 0 for a heatmap without
    /// observations. The heatmap is left as it was.
    pub fn find_max(&mut self) -> (max: u64)
        requires
            old(self).wf(),
        ensures
            max == max_count(old(self).cells()),
            *final(self) == *old(self),
    {
        self.snapshot().find_max()
    }

    /// The size of the image, width by height: the number of buckets that the
    /// heatmap reports by its number of slices. `None` for a heatmap without
    /// slices, which has no buckets to count, and for a size that is beyond
    /// the machine's addresses.
    pub fn dimensions(&self) -> (size: Option<(usize, usize)>)
        requires
            self.wf(),
        ensures
            match size {
                Some((width, height)) => {
                    &&& height == self.cells().len()
                    &&& height > 0
                    &&& width == heatmap_buckets(self.heatmap)
                    &&& is_rectangular(self.cells(), width as nat)
                },
                None => {
                    ||| self.cells().len() == 0
                    ||| self.cells().len() > usize::MAX
                    ||| heatmap_buckets(self.heatmap) > usize::MAX
                },
            },
    {
        let slices: u64 = slice_count(&self.heatmap);
        if slices == 0 {
            return None;
        }
        let buckets: u64 = bucket_count(&self.heatmap);
        if slices > usize::MAX as u64 || buckets > usize::MAX as u64 {
            return None;
        }
        Some((buckets as usize, slices as usize))
    }

    /// Renders the heatmap. The image is as wide as the heatmap has buckets
    /// and as high as it has slices; `colors[y][x]` is the colour of bucket
    /// `x` of slice `y`, and `texts[k]` is the rasterized text of the k-th
    /// mark of the snapshot. A heatmap without slices renders to an empty
    /// image. The slices of a heatmap all have the width that it reports, so
    /// the geometry is refused only where the colours do not fit it.
    pub fn render(&self, colors: &Vec<Vec<ColorRgb>>, texts: &Vec<ImageBuffer<ColorRgb>>) -> (out:
        Result<ImageBuffer<ColorRgb>, RenderError>)
        requires
            self.wf(),
            forall|k: int| 0 <= k < texts.len() ==> (#[trigger] texts[k]).wf(),
        ensures
            render_outcome(
                self.cells(),
                self.spec_width() as nat,
                grid_of(colors@),
                grids_of(texts@),
                out,
            ),
            out == Err::<ImageBuffer<ColorRgb>, RenderError>(RenderError::GeometryMismatch)
                <==> !is_grid(grid_of(colors@), self.spec_width() as nat, self.cells().len()),
    {
        let snapshot = self.snapshot();
        assert(snapshot@.len() == heatmap_cells(self.heatmap).len());
        let width: usize = if snapshot.slices.len() == 0 {
            0
        } else {
            // The first slice is in memory with that many buckets, so the
            // count fits the machine.
            let buckets: u64 = bucket_count(&self.heatmap);
            assert(buckets == snapshot.slices[0].len()) by {
                assert(snapshot@[0].len() == heatmap_cells(self.heatmap)[0].len());
                assert(snapshot@[0] == snapshot.slices[0]@);
            }
            buckets as usize
        };
        assert(is_rectangular(snapshot@, width as nat)) by {
            assert forall|y: int| 0 <= y < snapshot@.len() implies (#[trigger] snapshot@[y]).len()
                == width by {
                assert(snapshot@[y].len() == heatmap_cells(self.heatmap)[y].len());
            }
        }
        render(&snapshot, width, colors, texts)
    }
}

} // verus!
