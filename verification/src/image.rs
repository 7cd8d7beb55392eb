//! A fixed-size grid of RGB pixels with the operations the renderer paints
//! with: set a pixel, overlay another grid, draw a full row or column, and
//! flatten to interleaved bytes.
//!
//! The model of a buffer is its rows, top to bottom, each a sequence of pixels
//! from left to right. The operations are stated as functions on that model.

use vstd::prelude::*;
use crate::color::ColorRgb;

verus! {

/// A grid of pixels as a sequence of rows.
pub type Grid = Seq<Seq<ColorRgb>>;

/// `g` has `height` rows of `width` pixels each.
pub open spec fn is_grid(g: Grid, width: nat, height: nat) -> bool {
    &&& g.len() == height
    &&& forall|y: int| 0 <= y < g.len() ==> (#[trigger] g[y]).len() == width
}

/// The all-black grid of the given size.
pub open spec fn blank(width: nat, height: nat) -> Grid {
    Seq::new(height, |y: int| Seq::new(width, |x: int| ColorRgb::spec_black()))
}

/// `(x, y)` names a pixel of `g`.
pub open spec fn in_grid(g: Grid, x: int, y: int) -> bool {
    0 <= y < g.len() && 0 <= x < g[y].len()
}

/// `g` with the pixel at `(x, y)` set to `c`; `g` itself where `(x, y)` is
/// outside the grid.
pub open spec fn with_pixel(g: Grid, x: int, y: int, c: ColorRgb) -> Grid {
    if in_grid(g, x, y) {
        g.update(y, g[y].update(x, c))
    } else {
        g
    }
}

/// The pixel of `src` that an overlay at `(x, y)` writes to `(dx, dy)`, if it
/// writes one: the source pixel at `(dx - x, dy - y)`, unless there is none or
/// it is black.
pub open spec fn overlay_source(src: Grid, x: int, y: int, dx: int, dy: int) -> Option<ColorRgb> {
    if in_grid(src, dx - x, dy - y) && src[dy - y][dx - x] != ColorRgb::spec_black() {
        Some(src[dy - y][dx - x])
    } else {
        None
    }
}

/// `dst` with `src` laid over it, the top-left pixel of `src` at `(x, y)`.
/// Black pixels of `src` are transparent, and what falls outside `dst` is
/// dropped. The result has the shape of `dst`.
pub open spec fn overlaid(dst: Grid, src: Grid, x: int, y: int) -> Grid {
    Seq::new(
        dst.len(),
        |dy: int|
            Seq::new(
                dst[dy].len(),
                |dx: int|
                    match overlay_source(src, x, y, dx, dy) {
                        Some(c) => c,
                        None => dst[dy][dx],
                    },
            ),
    )
}

/// `g` with every pixel of row `y` set to `c`.
pub open spec fn with_row(g: Grid, y: int, c: ColorRgb) -> Grid {
    g.update(y, Seq::new(g[y].len(), |x: int| c))
}

/// `g` with the pixel at column `x` of every row set to `c`.
pub open spec fn with_column(g: Grid, x: int, c: ColorRgb) -> Grid {
    Seq::new(g.len(), |y: int| g[y].update(x, c))
}

/// The bytes of one row: red, green and blue of each pixel, left to right.
pub open spec fn row_bytes(row: Seq<ColorRgb>) -> Seq<u8>
    decreases row.len(),
{
    if row.len() == 0 {
        Seq::empty()
    } else {
        row_bytes(row.drop_last()) + seq![row.last().r, row.last().g, row.last().b]
    }
}

/// The bytes of a grid: the bytes of its rows, top to bottom.
pub open spec fn grid_bytes(g: Grid) -> Seq<u8>
    decreases g.len(),
{
    if g.len() == 0 {
        Seq::empty()
    } else {
        grid_bytes(g.drop_last()) + row_bytes(g.last())
    }
}

/// A row of `n` pixels flattens to `3 * n` bytes.
pub proof fn lemma_row_bytes_len(row: Seq<ColorRgb>)
    ensures
        row_bytes(row).len() == 3 * row.len(),
    decreases row.len(),
{
    if row.len() > 0 {
        lemma_row_bytes_len(row.drop_last());
    }
}

/// A grid of `width` by `height` pixels flattens to `3 * width * height` bytes.
pub proof fn lemma_grid_bytes_len(g: Grid, width: nat, height: nat)
    requires
        is_grid(g, width, height),
    ensures
        grid_bytes(g).len() == 3 * width * height,
    decreases g.len(),
{
    if g.len() > 0 {
        let rest = g.drop_last();
        assert(is_grid(rest, width, (height - 1) as nat)) by {
            assert forall|y: int| 0 <= y < rest.len() implies (#[trigger] rest[y]).len()
                == width by {
                assert(rest[y] == g[y]);
            }
        }
        lemma_grid_bytes_len(rest, width, (height - 1) as nat);
        lemma_row_bytes_len(g.last());
        assert(3 * width * (height - 1) + 3 * width == 3 * width * height) by (nonlinear_arith);
    } else {
        assert(3 * width * height == 0) by (nonlinear_arith)
            requires
                height == 0,
        ;
    }
}

/// The byte at offset `3 * x + k` of a flattened row is channel `k` of pixel
/// `x`.
pub proof fn lemma_row_bytes_index(row: Seq<ColorRgb>, x: int)
    requires
        0 <= x < row.len(),
    ensures
        row_bytes(row).len() == 3 * row.len(),
        row_bytes(row)[3 * x] == row[x].r,
        row_bytes(row)[3 * x + 1] == row[x].g,
        row_bytes(row)[3 * x + 2] == row[x].b,
    decreases row.len(),
{
    lemma_row_bytes_len(row);
    lemma_row_bytes_len(row.drop_last());
    if x < row.len() - 1 {
        lemma_row_bytes_index(row.drop_last(), x);
    }
}

/// Flattening is row-major: in a grid of `width` by `height` pixels the byte
/// at offset `3 * (y * width + x) + k` is channel `k` of the pixel at `(x, y)`.
pub proof fn lemma_grid_bytes_index(g: Grid, width: nat, height: nat, x: int, y: int)
    requires
        is_grid(g, width, height),
        0 <= x < width,
        0 <= y < height,
    ensures
        0 <= 3 * (y * width + x),
        3 * (y * width + x) + 2 < grid_bytes(g).len(),
        grid_bytes(g)[3 * (y * width + x)] == g[y][x].r,
        grid_bytes(g)[3 * (y * width + x) + 1] == g[y][x].g,
        grid_bytes(g)[3 * (y * width + x) + 2] == g[y][x].b,
    decreases g.len(),
{
    let rest = g.drop_last();
    assert(is_grid(rest, width, (height - 1) as nat)) by {
        assert forall|j: int| 0 <= j < rest.len() implies (#[trigger] rest[j]).len() == width by {
            assert(rest[j] == g[j]);
        }
    }
    lemma_grid_bytes_len(g, width, height);
    lemma_grid_bytes_len(rest, width, (height - 1) as nat);
    let offset = 3 * (y * width + x);
    assert(0 <= y * width && y * width + width <= width * height && 3 * (y * width) == 3 * width
        * y && width * height == height * width) by (nonlinear_arith)
        requires
            0 <= y < height,
            0 <= width,
    ;
    assert(3 * width * height == 3 * (width * height)) by (nonlinear_arith);
    assert(3 * width * (height - 1) == 3 * (width * height) - 3 * width) by (nonlinear_arith);
    if y < height - 1 {
        lemma_grid_bytes_index(rest, width, (height - 1) as nat, x, y);
        assert(rest[y] == g[y]);
        assert(y * width + width <= width * (height - 1)) by (nonlinear_arith)
            requires
                0 <= y < height - 1,
                0 <= width,
        ;
    } else {
        lemma_row_bytes_index(g.last(), x);
        assert(3 * width * (height - 1) == 3 * (y * width)) by (nonlinear_arith)
            requires
                y == height - 1,
        ;
    }
}

/// A grid of pixels of fixed width and height.
pub struct ImageBuffer<T> {
    buffer: Vec<Vec<T>>,
    height: usize,
    width: usize,
}

impl<T> View for ImageBuffer<T> {
    type V = Seq<Seq<T>>;

    /// The rows of the buffer, top to bottom.
    closed spec fn view(&self) -> Seq<Seq<T>> {
        Seq::new(self.buffer.len() as nat, |y: int| self.buffer[y]@)
    }
}

impl ImageBuffer<ColorRgb> {
    pub closed spec fn spec_width(&self) -> usize {
        self.width
    }

    pub closed spec fn spec_height(&self) -> usize {
        self.height
    }

    /// The rows agree with the recorded width and height.
    pub open spec fn wf(&self) -> bool {
        is_grid(self@, self.spec_width() as nat, self.spec_height() as nat)
    }

    /// A buffer of the given size with every pixel black.
    pub fn new(width: usize, height: usize) -> (img: ImageBuffer<ColorRgb>)
        ensures
            img.wf(),
            img.spec_width() == width,
            img.spec_height() == height,
            img@ == blank(width as nat, height as nat),
    {
        let background = ColorRgb::black();
        let mut buffer: Vec<Vec<ColorRgb>> = Vec::new();
        for y in 0..height
            invariant
                background == ColorRgb::spec_black(),
                buffer.len() == y,
                forall|j: int|
                    0 <= j < y ==> (#[trigger] buffer[j])@ == Seq::new(
                        width as nat,
                        |x: int| ColorRgb::spec_black(),
                    ),
        {
            let mut row: Vec<ColorRgb> = Vec::new();
            for x in 0..width
                invariant
                    background == ColorRgb::spec_black(),
                    row.len() == x,
                    forall|i: int| 0 <= i < x ==> #[trigger] row[i] == ColorRgb::spec_black(),
            {
                row.push(background);
            }
            assert(row@ =~= Seq::new(width as nat, |x: int| ColorRgb::spec_black()));
            buffer.push(row);
        }
        let img = ImageBuffer { buffer, height, width };
        assert(img@ =~= blank(width as nat, height as nat));
        img
    }

    /// The number of pixels in a row.
    #[verifier::when_used_as_spec(spec_width)]
    pub fn width(&self) -> (w: usize)
        ensures
            w == self.spec_width(),
    {
        self.width
    }

    /// The number of rows.
    #[verifier::when_used_as_spec(spec_height)]
    pub fn height(&self) -> (h: usize)
        ensures
            h == self.spec_height(),
    {
        self.height
    }

    /// The pixel at `(x, y)`, or `None` outside the buffer.
    pub fn pixel(&self, x: usize, y: usize) -> (p: Option<ColorRgb>)
        requires
            self.wf(),
        ensures
            p == if in_grid(self@, x as int, y as int) {
                Some(self@[y as int][x as int])
            } else {
                None
            },
    {
        if x < self.width && y < self.height {
            assert(self@[y as int].len() == self.spec_width());
            Some(self.buffer[y][x])
        } else {
            None
        }
    }

    /// Sets the pixel at `(x, y)`. Outside the buffer this does nothing.
    pub fn set_pixel(&mut self, x: usize, y: usize, value: ColorRgb)
        requires
            old(self).wf(),
        ensures
            final(self).wf(),
            final(self).spec_width() == old(self).spec_width(),
            final(self).spec_height() == old(self).spec_height(),
            final(self)@ == with_pixel(old(self)@, x as int, y as int, value),
    {
        if x < self.width && y < self.height {
            assert(self@[y as int].len() == self.spec_width());
            self.buffer[y][x] = value;
            assert(self@ =~= with_pixel(old(self)@, x as int, y as int, value));
        }
    }

    /// Sets the pixel that lies `x` to the right of `left` and `y` below
    /// `top`, as a rasterizer reports the pixels of a glyph: relative to the
    /// corner of the glyph's bounding box, which may lie outside the buffer
    /// on any side. Outside the buffer this does nothing.
    pub fn plot(&mut self, x: u32, y: u32, left: i32, top: i32, value: ColorRgb)
        requires
            old(self).wf(),
        ensures
            final(self).wf(),
            final(self).spec_width() == old(self).spec_width(),
            final(self).spec_height() == old(self).spec_height(),
            final(self)@ == with_pixel(old(self)@, x + left, y + top, value),
    {
        let column: i64 = x as i64 + left as i64;
        let row: i64 = y as i64 + top as i64;
        if column >= 0 && row >= 0 && column as u64 <= usize::MAX as u64 && row as u64
            <= usize::MAX as u64 {
            self.set_pixel(column as usize, row as usize, value);
        } else {
            assert(!in_grid(self@, x + left, y + top)) by {
                if 0 <= y + top < self@.len() {
                    assert(self@[y + top].len() == self.spec_width());
                }
            }
        }
    }

    /// Lays `other` over this buffer with its top-left pixel at `(x, y)`.
    /// Black pixels of `other` are skipped, and pixels that would land outside
    /// this buffer are dropped.
    pub fn overlay(&mut self, other: &ImageBuffer<ColorRgb>, x: usize, y: usize)
        requires
            old(self).wf(),
            other.wf(),
        ensures
            final(self).wf(),
            final(self).spec_width() == old(self).spec_width(),
            final(self).spec_height() == old(self).spec_height(),
            final(self)@ == overlaid(old(self)@, other@, x as int, y as int),
    {
        let ignore = ColorRgb::black();
        let ghost before = self@;
        if x < self.width && y < self.height {
            let room_x: usize = self.width - x;
            let room_y: usize = self.height - y;
            for sx in 0..other.width
                invariant
                    ignore == ColorRgb::spec_black(),
                    other.wf(),
                    self.wf(),
                    self.spec_width() == old(self).spec_width(),
                    self.spec_height() == old(self).spec_height(),
                    before == old(self)@,
                    is_grid(before, self.spec_width() as nat, self.spec_height() as nat),
                    x < self.width,
                    y < self.height,
                    room_x == self.width - x,
                    room_y == self.height - y,
                    forall|dx: int, dy: int|
                        0 <= dy < self.height && 0 <= dx < self.width ==> #[trigger] self@[dy][dx]
                            == match overlay_source(other@, x as int, y as int, dx, dy) {
                            Some(c) if dx - x < sx => c,
                            _ => before[dy][dx],
                        },
            {
                for sy in 0..other.height
                    invariant
                        ignore == ColorRgb::spec_black(),
                        other.wf(),
                        self.wf(),
                        self.spec_width() == old(self).spec_width(),
                        self.spec_height() == old(self).spec_height(),
                        before == old(self)@,
                        is_grid(before, self.spec_width() as nat, self.spec_height() as nat),
                        x < self.width,
                        y < self.height,
                        sx < other.width,
                        room_x == self.width - x,
                        room_y == self.height - y,
                        forall|dx: int, dy: int|
                            0 <= dy < self.height && 0 <= dx < self.width
                                ==> #[trigger] self@[dy][dx] == match overlay_source(
                                other@,
                                x as int,
                                y as int,
                                dx,
                                dy,
                            ) {
                                Some(c) if dx - x < sx || (dx - x == sx && dy - y < sy) => c,
                                _ => before[dy][dx],
                            },
                {
                    assert(other@[sy as int].len() == other.spec_width());
                    let source = other.buffer[sy][sx];
                    if source != ignore && sx < room_x && sy < room_y {
                        let ghost prior = self@;
                        assert(self@[sy + y].len() == self.spec_width());
                        self.buffer[sy + y][sx + x] = source;
                        assert(self@ =~= with_pixel(prior, sx + x, sy + y, source));
                    }
                }
            }
        }
        assert(self@ =~~= overlaid(before, other@, x as int, y as int)) by {
            assert forall|dy: int, dx: int|
                0 <= dy < self.height && 0 <= dx < self.width implies #[trigger] self@[dy][dx]
                == overlaid(before, other@, x as int, y as int)[dy][dx] by {
                assert(before[dy].len() == self.spec_width());
                if overlay_source(other@, x as int, y as int, dx, dy) is Some {
                    assert(other@[dy - y].len() == other.spec_width());
                }
            }
            assert forall|dy: int| 0 <= dy < self.height implies #[trigger] self@[dy] =~= overlaid(
                before,
                other@,
                x as int,
                y as int,
            )[dy] by {
                assert(before[dy].len() == self.spec_width());
                assert(self@[dy].len() == self.spec_width());
            }
        }
    }

    /// Sets every pixel of row `y` to `color`.
    pub fn horizontal_line(&mut self, y: usize, color: ColorRgb)
        requires
            old(self).wf(),
            y < old(self).spec_height(),
        ensures
            final(self).wf(),
            final(self).spec_width() == old(self).spec_width(),
            final(self).spec_height() == old(self).spec_height(),
            final(self)@ == with_row(old(self)@, y as int, color),
    {
        let ghost before = self@;
        let width: usize = self.width;
        for x in 0..width
            invariant
                width == self.width,
                self.wf(),
                self.spec_width() == old(self).spec_width(),
                self.spec_height() == old(self).spec_height(),
                before == old(self)@,
                y < self.height,
                forall|j: int| 0 <= j < self.height && j != y ==> #[trigger] self@[j] == before[j],
                forall|i: int|
                    0 <= i < self.width ==> #[trigger] self@[y as int][i] == if i < x {
                        color
                    } else {
                        before[y as int][i]
                    },
        {
            let ghost prior = self@;
            assert(self@[y as int].len() == self.spec_width());
            self.buffer[y][x] = color;
            assert(self@ =~= with_pixel(prior, x as int, y as int, color));
        }
        assert(self@[y as int].len() == self.spec_width());
        assert(before[y as int].len() == self.spec_width());
        assert(self@[y as int] =~= Seq::new(before[y as int].len(), |x: int| color));
        assert(self@ =~= with_row(before, y as int, color));
    }

    /// Sets the pixel at column `x` of every row to `color`.
    pub fn vertical_line(&mut self, x: usize, color: ColorRgb)
        requires
            old(self).wf(),
            x < old(self).spec_width(),
        ensures
            final(self).wf(),
            final(self).spec_width() == old(self).spec_width(),
            final(self).spec_height() == old(self).spec_height(),
            final(self)@ == with_column(old(self)@, x as int, color),
    {
        let ghost before = self@;
        let height: usize = self.height;
        for y in 0..height
            invariant
                height == self.height,
                self.wf(),
                self.spec_width() == old(self).spec_width(),
                self.spec_height() == old(self).spec_height(),
                before == old(self)@,
                x < self.width,
                forall|j: int|
                    0 <= j < self.height ==> #[trigger] self@[j] == if j < y {
                        before[j].update(x as int, color)
                    } else {
                        before[j]
                    },
        {
            let ghost prior = self@;
            assert(self@[y as int].len() == self.spec_width());
            self.buffer[y][x] = color;
            assert(self@ =~= with_pixel(prior, x as int, y as int, color));
        }
        assert(self@ =~= with_column(before, x as int, color));
    }

    /// The pixels as bytes: row by row from the top, red, green and blue of
    /// each pixel, with no alpha channel.
    pub fn rgb_bytes(&self) -> (bytes: Vec<u8>)
        requires
            self.wf(),
        ensures
            bytes@ == grid_bytes(self@),
            bytes@.len() == 3 * self.spec_width() * self.spec_height(),
    {
        let mut bytes: Vec<u8> = Vec::new();
        assert(self@.take(0) =~= Seq::<Seq<ColorRgb>>::empty());
        for row in 0..self.height
            invariant
                self.wf(),
                bytes@ == grid_bytes(self@.take(row as int)),
        {
            let ghost done = bytes@;
            assert(self@[row as int].len() == self.spec_width());
            assert(self@[row as int].take(0) =~= Seq::<ColorRgb>::empty());
            for col in 0..self.width
                invariant
                    self.wf(),
                    row < self.height,
                    self@[row as int].len() == self.spec_width(),
                    bytes@ == done + row_bytes(self@[row as int].take(col as int)),
            {
                let pixel = self.buffer[row][col];
                bytes.push(pixel.r);
                bytes.push(pixel.g);
                bytes.push(pixel.b);
                proof {
                    let upto = self@[row as int].take(col + 1);
                    assert(upto.drop_last() =~= self@[row as int].take(col as int));
                    assert(upto.last() == pixel);
                    assert(bytes@ =~= done + row_bytes(upto));
                }
            }
            proof {
                assert(self@[row as int].take(self.width as int) =~= self@[row as int]);
                let upto = self@.take(row + 1);
                assert(upto.drop_last() =~= self@.take(row as int));
                assert(upto.last() == self@[row as int]);
            }
        }
        proof {
            assert(self@.take(self.height as int) =~= self@);
            lemma_grid_bytes_len(self@, self.spec_width() as nat, self.spec_height() as nat);
        }
        bytes
    }
}

/// A buffer stays inside its bounds under an overlay, and a pixel that no
/// non-black source pixel lands on keeps its colour, whatever the size and
/// offset of the overlay.
pub proof fn lemma_overlay_frame(dst: Grid, src: Grid, x: int, y: int, dx: int, dy: int)
    requires
        in_grid(dst, dx, dy),
        overlay_source(src, x, y, dx, dy) is None,
    ensures
        overlaid(dst, src, x, y).len() == dst.len(),
        overlaid(dst, src, x, y)[dy].len() == dst[dy].len(),
        overlaid(dst, src, x, y)[dy][dx] == dst[dy][dx],
{
}

/// An overlay keeps the shape of the destination.
pub proof fn lemma_overlay_shape(dst: Grid, src: Grid, x: int, y: int, width: nat, height: nat)
    requires
        is_grid(dst, width, height),
    ensures
        is_grid(overlaid(dst, src, x, y), width, height),
{
}

/// A horizontal line sets every pixel of its row and leaves every other row
/// as it was.
pub proof fn lemma_horizontal_line(g: Grid, y: int, c: ColorRgb, px: int, py: int)
    requires
        0 <= y < g.len(),
        in_grid(g, px, py),
    ensures
        with_row(g, y, c).len() == g.len(),
        with_row(g, y, c)[py].len() == g[py].len(),
        py == y ==> with_row(g, y, c)[py][px] == c,
        py != y ==> with_row(g, y, c)[py] == g[py],
{
}

/// A vertical line sets the pixel of its column in every row and leaves every
/// other column as it was.
pub proof fn lemma_vertical_line(g: Grid, x: int, c: ColorRgb, px: int, py: int)
    requires
        in_grid(g, px, py),
        0 <= x < g[py].len(),
    ensures
        with_column(g, x, c).len() == g.len(),
        with_column(g, x, c)[py].len() == g[py].len(),
        px == x ==> with_column(g, x, c)[py][px] == c,
        px != x ==> with_column(g, x, c)[py][px] == g[py][px],
{
}

} // verus!
