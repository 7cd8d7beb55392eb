//! Composing the image. The colour of each cell and the bitmap of each piece
//! of text come from outside (a colour-space conversion and a glyph
//! rasterizer); given those, the image is fixed: the cells painted row by
//! row, then the annotations stamped on in drawing order.

use vstd::prelude::*;
use crate::annotate::{lemma_first_mark_is_time, lemma_marks_lie_on, mark_on, marks_of, Mark};
use crate::color::ColorRgb;
use crate::image::{is_grid, overlaid, with_column, with_row, Grid, ImageBuffer};
use crate::snapshot::{is_rectangular, Cells, Snapshot};

verus! {

/// Why an image could not be produced.
#[derive(Clone, Copy, Debug, PartialEq, Eq, Structural)]
pub enum RenderError {
    /// The slices do not all have the stated number of buckets, or the
    /// colours do not match the slices cell for cell.
    GeometryMismatch,
    /// A piece of text has no bitmap: the bitmaps do not match the
    /// annotations one for one.
    RasterizationFailure,
    /// The image codec rejected the pixels.
    CodecFailure,
}

/// The rows of a vector of pixel rows.
pub open spec fn grid_of(rows: Seq<Vec<ColorRgb>>) -> Grid {
    Seq::new(rows.len(), |y: int| rows[y]@)
}

/// The pixels of a sequence of buffers.
pub open spec fn grids_of(buffers: Seq<ImageBuffer<ColorRgb>>) -> Seq<Grid> {
    Seq::new(buffers.len(), |k: int| buffers[k]@)
}

/// `g` with one annotation drawn: the text laid over it at the mark's corner,
/// then a black line along the mark's row (time) or down its column
/// (latency). The line is drawn last, so it cuts through the text.
pub open spec fn stamped(g: Grid, mark: Mark, text: Grid) -> Grid {
    match mark {
        Mark::Time { y } => with_row(
            overlaid(g, text, 0, y as int),
            y as int,
            ColorRgb::spec_black(),
        ),
        Mark::Latency { x, y, .. } => with_column(
            overlaid(g, text, x as int, y as int),
            x as int,
            ColorRgb::spec_black(),
        ),
    }
}

/// `g` with the first `upto` annotations drawn, in order.
pub open spec fn annotated(g: Grid, marks: Seq<Mark>, texts: Seq<Grid>, upto: nat) -> Grid
    decreases upto,
{
    if upto == 0 {
        g
    } else {
        stamped(annotated(g, marks, texts, (upto - 1) as nat), marks[upto - 1], texts[upto - 1])
    }
}

/// The mark's gridline lies inside a buffer of the given size.
pub open spec fn mark_fits(mark: Mark, width: nat, height: nat) -> bool {
    match mark {
        Mark::Time { y } => y < height,
        Mark::Latency { x, .. } => x < width,
    }
}

/// The slices and the colours agree with the stated width: every slice has
/// `width` buckets, and there is one row of `width` colours for each slice.
pub open spec fn geometry_fits(cells: Cells, width: nat, colors: Grid) -> bool {
    is_rectangular(cells, width) && is_grid(colors, width, cells.len())
}

/// Drawing an annotation keeps the size of the grid.
pub proof fn lemma_stamped_shape(g: Grid, mark: Mark, text: Grid, width: nat, height: nat)
    requires
        is_grid(g, width, height),
        mark_fits(mark, width, height),
    ensures
        is_grid(stamped(g, mark, text), width, height),
{
}

/// Drawing annotations keeps the size of the grid.
pub proof fn lemma_annotated_shape(
    g: Grid,
    marks: Seq<Mark>,
    texts: Seq<Grid>,
    upto: nat,
    width: nat,
    height: nat,
)
    requires
        is_grid(g, width, height),
        upto <= marks.len(),
        forall|k: int| 0 <= k < marks.len() ==> mark_fits(#[trigger] marks[k], width, height),
    ensures
        is_grid(annotated(g, marks, texts, upto), width, height),
    decreases upto,
{
    if upto > 0 {
        lemma_annotated_shape(g, marks, texts, (upto - 1) as nat, width, height);
        lemma_stamped_shape(
            annotated(g, marks, texts, (upto - 1) as nat),
            marks[upto - 1],
            texts[upto - 1],
            width,
            height,
        );
    }
}

/// A mark that lies on rectangular cells fits a buffer of their size.
pub proof fn lemma_mark_on_fits(cells: Cells, width: nat, mark: Mark)
    requires
        is_rectangular(cells, width),
        mark_on(cells, mark),
    ensures
        mark_fits(mark, width, cells.len()),
{
}

impl ImageBuffer<ColorRgb> {
    /// Draws one annotation: lays `text` over the buffer at the mark's
    /// corner, then draws the mark's black gridline.
    pub fn stamp(&mut self, mark: &Mark, text: &ImageBuffer<ColorRgb>)
        requires
            old(self).wf(),
            text.wf(),
            mark_fits(*mark, old(self).spec_width() as nat, old(self).spec_height() as nat),
        ensures
            final(self).wf(),
            final(self).spec_width() == old(self).spec_width(),
            final(self).spec_height() == old(self).spec_height(),
            final(self)@ == stamped(old(self)@, *mark, text@),
    {
        match mark {
            Mark::Time { y } => {
                self.overlay(text, 0, *y);
                self.horizontal_line(*y, ColorRgb::black());
            },
            Mark::Latency { x, y, .. } => {
                self.overlay(text, *x, *y);
                self.vertical_line(*x, ColorRgb::black());
            },
        }
    }

    /// A buffer that holds the given rows of pixels, or `None` where the
    /// rows do not all have `width` pixels.
    pub fn from_rows(width: usize, rows: &Vec<Vec<ColorRgb>>) -> (made: Option<
        ImageBuffer<ColorRgb>,
    >)
        ensures
            match made {
                Some(img) => {
                    &&& is_grid(grid_of(rows@), width as nat, rows.len() as nat)
                    &&& img.wf()
                    &&& img.spec_width() == width
                    &&& img.spec_height() == rows.len()
                    &&& img@ == grid_of(rows@)
                },
                None => !is_grid(grid_of(rows@), width as nat, rows.len() as nat),
            },
    {
        let height = rows.len();
        for y in 0..height
            invariant
                height == rows.len(),
                forall|j: int| 0 <= j < y ==> (#[trigger] rows[j]).len() == width,
        {
            if rows[y].len() != width {
                assert(grid_of(rows@)[y as int].len() != width);
                return None;
            }
        }
        assert(is_grid(grid_of(rows@), width as nat, rows.len() as nat)) by {
            assert forall|j: int| 0 <= j < grid_of(rows@).len() implies (#[trigger] grid_of(
                rows@,
            )[j]).len() == width by {
                assert(rows[j].len() == width);
            }
        }
        let mut img = ImageBuffer::new(width, height);
        for y in 0..height
            invariant
                height == rows.len(),
                is_grid(grid_of(rows@), width as nat, rows.len() as nat),
                img.wf(),
                img.spec_width() == width,
                img.spec_height() == height,
                forall|j: int| 0 <= j < y ==> #[trigger] img@[j] == rows[j]@,
        {
            let row = &rows[y];
            assert(grid_of(rows@)[y as int].len() == width);
            for x in 0..width
                invariant
                    height == rows.len(),
                    y < height,
                    row == rows[y as int],
                    row.len() == width,
                    img.wf(),
                    img.spec_width() == width,
                    img.spec_height() == height,
                    forall|j: int| 0 <= j < y ==> #[trigger] img@[j] == rows[j]@,
                    forall|i: int| 0 <= i < x ==> #[trigger] img@[y as int][i] == row[i],
            {
                img.set_pixel(x, y, row[x]);
            }
            assert(img@[y as int] =~= rows[y as int]@);
        }
        assert(img@ =~= grid_of(rows@));
        Some(img)
    }
}

/// What rendering owes. It succeeds exactly when the geometry fits and there
/// is one bitmap for each mark. The image then has the stated width and one
/// row per slice, and holds the colours with the marks drawn over them in
/// order. A geometry that does not fit is reported before a missing bitmap.
pub open spec fn render_outcome(
    cells: Cells,
    width: nat,
    colors: Grid,
    texts: Seq<Grid>,
    out: Result<ImageBuffer<ColorRgb>, RenderError>,
) -> bool {
    match out {
        Ok(img) => {
            &&& geometry_fits(cells, width, colors)
            &&& texts.len() == marks_of(cells).len()
            &&& img.wf()
            &&& img.spec_width() == width
            &&& img.spec_height() == cells.len()
            &&& img@ == annotated(colors, marks_of(cells), texts, texts.len())
        },
        Err(RenderError::GeometryMismatch) => !geometry_fits(cells, width, colors),
        Err(RenderError::RasterizationFailure) => {
            &&& geometry_fits(cells, width, colors)
            &&& texts.len() != marks_of(cells).len()
        },
        Err(RenderError::CodecFailure) => false,
    }
}

/// Renders a snapshot: paints `colors` cell for cell into a buffer of `width`
/// by as many rows as there are slices, then draws the annotations of the
/// snapshot in order, the k-th with the bitmap `texts[k]`.
///
/// `colors[y][x]` is the colour of bucket `x` of slice `y`, and `texts[k]` is
/// the rasterized text of the k-th mark of `snapshot.marks()`.
pub fn render(
    snapshot: &Snapshot,
    width: usize,
    colors: &Vec<Vec<ColorRgb>>,
    texts: &Vec<ImageBuffer<ColorRgb>>,
) -> (out: Result<ImageBuffer<ColorRgb>, RenderError>)
    requires
        forall|k: int| 0 <= k < texts.len() ==> (#[trigger] texts[k]).wf(),
    ensures
        render_outcome(snapshot@, width as nat, grid_of(colors@), grids_of(texts@), out),
{
    if !snapshot.is_rectangular(width) || colors.len() != snapshot.slices.len() {
        return Err(RenderError::GeometryMismatch);
    }
    let mut img = match ImageBuffer::from_rows(width, colors) {
        Some(img) => img,
        None => {
            return Err(RenderError::GeometryMismatch);
        },
    };
    let plan = snapshot.marks();
    if texts.len() != plan.len() {
        return Err(RenderError::RasterizationFailure);
    }
    let ghost base = img@;
    let count = plan.len();
    for k in 0..count
        invariant
            count == plan.len(),
            count == texts.len(),
            plan@ == marks_of(snapshot@),
            is_rectangular(snapshot@, width as nat),
            forall|i: int| 0 <= i < plan.len() ==> mark_on(snapshot@, #[trigger] plan[i]),
            forall|i: int| 0 <= i < texts.len() ==> (#[trigger] texts[i]).wf(),
            img.wf(),
            img.spec_width() == width,
            img.spec_height() == snapshot@.len(),
            img@ == annotated(base, plan@, grids_of(texts@), k as nat),
    {
        proof {
            lemma_mark_on_fits(snapshot@, width as nat, plan[k as int]);
        }
        img.stamp(&plan[k], &texts[k]);
    }
    Ok(img)
}

/// The size of a rendered image is the number of buckets by the number of
/// slices, whatever the colours, the texts and the counts are.
pub proof fn lemma_rendered_size(cells: Cells, width: nat, colors: Grid, texts: Seq<Grid>)
    requires
        geometry_fits(cells, width, colors),
        cells.len() <= usize::MAX,
        width <= usize::MAX,
    ensures
        is_grid(
            annotated(colors, marks_of(cells), texts, marks_of(cells).len()),
            width,
            cells.len(),
        ),
{
    let marks = marks_of(cells);
    assert forall|k: int| 0 <= k < marks.len() implies mark_fits(
        #[trigger] marks[k],
        width,
        cells.len(),
    ) by {
        lemma_marks_lie_on(cells, k);
        lemma_mark_on_fits(cells, width, marks[k]);
    }
    lemma_annotated_shape(colors, marks, texts, marks.len(), width, cells.len());
}

/// Whatever the buckets hold, the first annotation of an image with at least
/// one bucket is the time mark of row 0, and once it is drawn row 0 is a black
/// line from edge to edge.
pub proof fn lemma_first_row_is_lined(cells: Cells, width: nat, colors: Grid, texts: Seq<Grid>)
    requires
        geometry_fits(cells, width, colors),
        cells.len() > 0,
        width > 0,
    ensures
        marks_of(cells).len() > 0,
        marks_of(cells)[0] == (Mark::Time { y: 0 }),
        annotated(colors, marks_of(cells), texts, 1)[0] == Seq::new(
            width,
            |x: int| ColorRgb::spec_black(),
        ),
{
    lemma_first_mark_is_time(cells);
    let first = annotated(colors, marks_of(cells), texts, 1);
    assert(annotated(colors, marks_of(cells), texts, 0) == colors);
    assert(first == stamped(colors, marks_of(cells)[0], texts[0]));
    assert(first[0] =~= Seq::new(width, |x: int| ColorRgb::spec_black()));
}

/// Rendering is deterministic: two outcomes for the same cells, width,
/// colours and texts agree. Both fail with the same error, or both succeed
/// with images of the same size and the same pixels.
pub proof fn lemma_render_deterministic(
    cells: Cells,
    width: nat,
    colors: Grid,
    texts: Seq<Grid>,
    first: Result<ImageBuffer<ColorRgb>, RenderError>,
    second: Result<ImageBuffer<ColorRgb>, RenderError>,
)
    requires
        render_outcome(cells, width, colors, texts, first),
        render_outcome(cells, width, colors, texts, second),
    ensures
        first is Ok <==> second is Ok,
        first is Err ==> first->Err_0 == second->Err_0,
        first is Ok ==> {
            &&& first->Ok_0@ == second->Ok_0@
            &&& first->Ok_0.spec_width() == second->Ok_0.spec_width()
            &&& first->Ok_0.spec_height() == second->Ok_0.spec_height()
        },
{
}

} // verus!
