//! The plotting canvas: a grid of RGB cells with its origin at the top-left
//! corner, the mapping from pixel offsets (relative to the centre, imaginary
//! axis pointing up) to cells, the render pass and the axis overlay.
//!
//! The offsets cover the whole grid, also when a side is odd, so that a
//! render pass overwrites every cell. The colour computed for an offset is
//! painted straight into the cell of that offset: going from the offset to
//! the plane and back would give the same cell up to rounding.

use vstd::prelude::*;

use crate::image_buffer::{buffer_cells, filled_image, get_cell, grid, put_cell, PixelBuffer};

pub use crate::image_buffer::Rgb8;

verus! {

/// The largest side a canvas may have, so that every pixel offset fits in an
/// `i32`.
pub const MAX_SIDE: u32 = 0x7fff_ffff;

/// The spacing, in pixels, of the tick marks that a render pass draws along
/// the axes.
pub const AXIS_TICK_SPACING: u32 = 5;

/// Why a canvas could not be created.
#[derive(Clone, Copy, Debug, PartialEq, Eq, Structural)]
pub enum GrapherError {
    /// The width or the height is zero.
    ZeroSize,
    /// A side exceeds `MAX_SIDE`, or the buffer would not fit in memory.
    TooLarge,
}

/// The colour of the axes.
pub open spec fn black() -> Rgb8 {
    (0u8, 0u8, 0u8)
}

/// Whether `(x, y)` is a pixel offset of a `w` by `h` canvas:
/// `x` in `[-floor(w/2), ceil(w/2) - 1]` and `y` in `[floor(h/2) - h + 1, floor(h/2)]`.
pub open spec fn is_offset(w: int, h: int, x: int, y: int) -> bool {
    -(w / 2) <= x < w - w / 2 && h / 2 - h < y <= h / 2
}

/// The cell `(column, row)` that pixel offset `(x, y)` stands for: the
/// offset is shifted by half the width and flipped and shifted by half the
/// height, so that a larger `y` lies higher on the canvas.
pub open spec fn corner_of(w: int, h: int, x: int, y: int) -> (int, int) {
    (x + w / 2, h / 2 - y)
}

/// The pixel offset that cell `k` stands for.
pub open spec fn offset_of(w: int, h: int, k: (int, int)) -> (int, int) {
    (k.0 - w / 2, h / 2 - k.1)
}

/// Whether cell `(x, y)` lies on the vertical axis of a `w` by `h` canvas or
/// on one of its tick marks, which stand every `t` rows.
pub open spec fn on_vertical_axis(w: int, h: int, t: int, x: int, y: int) -> bool {
    x == w / 2 || (y % t == 0 && (x == w / 2 + 1 || x == w / 2 - 1))
}

/// Whether cell `(x, y)` lies on the horizontal axis of a `w` by `h` canvas or
/// on one of its tick marks, which stand every `t` columns.
pub open spec fn on_horizontal_axis(w: int, h: int, t: int, x: int, y: int) -> bool {
    y == h / 2 || (x % t == 0 && (y == h / 2 + 1 || y == h / 2 - 1))
}

/// Whether cell `k` is drawn black by the axis overlay with tick spacing `t`.
pub open spec fn on_axes(w: int, h: int, t: int, k: (int, int)) -> bool {
    on_vertical_axis(w, h, t, k.0, k.1) || on_horizontal_axis(w, h, t, k.0, k.1)
}

/// The cells `m` after the axes with tick spacing `t` are drawn over them:
/// the cells on an axis or a tick turn black, the others keep their colour.
pub open spec fn axes_overlay(m: Map<(int, int), Rgb8>, w: int, h: int, t: int) -> Map<
    (int, int),
    Rgb8,
> {
    Map::new(|k: (int, int)| m.dom().contains(k), |k: (int, int)| if on_axes(w, h, t, k) {
        black()
    } else {
        m[k]
    })
}

/// Pixel offsets and cells are in one-to-one correspondence: `corner_of`
/// takes every offset of a `w` by `h` canvas to a cell of its grid and
/// `offset_of` takes it back, and every cell is the corner of its offset. So
/// the cell where a render pass paints the colour of offset `(x, y)` is the
/// one that `map_point` gives for `(x, y)`, and every cell is painted.
pub proof fn lemma_offsets_match_cells(w: int, h: int)
    requires
        w > 0,
        h > 0,
    ensures
        forall|x: int, y: int| #[trigger] is_offset(w, h, x, y) ==> {
            &&& grid(w, h, corner_of(w, h, x, y))
            &&& offset_of(w, h, corner_of(w, h, x, y)) == (x, y)
        },
        forall|k: (int, int)| #[trigger] grid(w, h, k) ==> {
            &&& is_offset(w, h, offset_of(w, h, k).0, offset_of(w, h, k).1)
            &&& corner_of(w, h, offset_of(w, h, k).0, offset_of(w, h, k).1) == k
        },
{
}

/// Drawing the axes is an overwrite: drawing them a second time with the same
/// tick spacing leaves the cells as the first drawing left them.
pub proof fn lemma_axes_idempotent(m: Map<(int, int), Rgb8>, w: int, h: int, t: int)
    ensures
        axes_overlay(axes_overlay(m, w, h, t), w, h, t) == axes_overlay(m, w, h, t),
{
    assert(axes_overlay(axes_overlay(m, w, h, t), w, h, t) =~= axes_overlay(m, w, h, t));
}

/// A canvas of `width` by `height` RGB cells, and whether a render pass draws
/// the axes over the plot.
pub struct Grapher {
    buf: PixelBuffer,
    width: u32,
    height: u32,
    axis_enabled: bool,
}

impl View for Grapher {
    type V = Map<(int, int), Rgb8>;

    /// The colour of each cell `(column, row)`.
    closed spec fn view(&self) -> Map<(int, int), Rgb8> {
        buffer_cells(self.buf)
    }
}

impl Default for Grapher {
    /// A white 100 by 100 canvas without axes.
    fn default() -> (r: Self)
        ensures
            r.wf(),
            r.cols() == 100,
            r.rows() == 100,
            !r.axes_on(),
            forall|k: (int, int)| #[trigger] r@.dom().contains(k) ==> r@[k] == (255u8, 255u8, 255u8),
    {
        Grapher { buf: filled_image(100, 100, (255, 255, 255)), width: 100, height: 100, axis_enabled: false }
    }
}

impl Grapher {
    /// The number of columns.
    pub closed spec fn cols(&self) -> int {
        self.width as int
    }

    /// The number of rows.
    pub closed spec fn rows(&self) -> int {
        self.height as int
    }

    /// Whether a render pass draws the axes.
    pub closed spec fn axes_on(&self) -> bool {
        self.axis_enabled
    }

    /// Both sides are positive and at most `MAX_SIDE`, the buffer fits in
    /// memory, and the cells are exactly those of the grid.
    pub closed spec fn wf(&self) -> bool {
        &&& 0 < self.width <= MAX_SIDE
        &&& 0 < self.height <= MAX_SIDE
        &&& 3 * (self.width as int) * (self.height as int) <= usize::MAX
        &&& forall|k: (int, int)| #[trigger]
            buffer_cells(self.buf).dom().contains(k) <==> grid(self.width as int, self.height as int, k)
    }

    /// The cells of the canvas are exactly those of its grid.
    pub proof fn lemma_cells(&self)
        requires
            self.wf(),
        ensures
            0 < self.cols() <= MAX_SIDE,
            0 < self.rows() <= MAX_SIDE,
            forall|k: (int, int)| #[trigger] self@.dom().contains(k) <==> grid(self.cols(), self.rows(), k),
    {
    }

    /// A black `w` by `h` canvas. Fails with `ZeroSize` when a side is zero,
    /// and with `TooLarge` when a side exceeds `MAX_SIDE` or the buffer of
    /// `3 * w * h` bytes would not fit in memory.
    pub fn new(w: u32, h: u32, axis_enabled: bool) -> (r: Result<Grapher, GrapherError>)
        ensures
            (w == 0 || h == 0) <==> r == Err::<Grapher, GrapherError>(GrapherError::ZeroSize),
            r == Err::<Grapher, GrapherError>(GrapherError::TooLarge) <==> (w != 0 && h != 0 && (
            w > MAX_SIDE || h > MAX_SIDE || 3 * (w as int) * (h as int) > usize::MAX)),
            r is Ok <==> (w != 0 && h != 0 && w <= MAX_SIDE && h <= MAX_SIDE && 3 * (w as int) * (h as int)
                <= usize::MAX),
            r matches Ok(g) ==> {
                &&& g.wf()
                &&& g.cols() == w
                &&& g.rows() == h
                &&& g.axes_on() == axis_enabled
                &&& forall|k: (int, int)| #[trigger] g@.dom().contains(k) ==> g@[k] == black()
            },
    {
        if w == 0 || h == 0 {
            return Err(GrapherError::ZeroSize);
        }
        if w > MAX_SIDE || h > MAX_SIDE {
            return Err(GrapherError::TooLarge);
        }
        assert((w as u128) * (h as u128) <= 0x7fff_ffff * 0x7fff_ffff) by (nonlinear_arith)
            requires
                w <= 0x7fff_ffff,
                h <= 0x7fff_ffff,
        ;
        assert(3 * ((w as int) * (h as int)) == 3 * (w as int) * (h as int)) by (nonlinear_arith);
        if 3 * ((w as u128) * (h as u128)) > usize::MAX as u128 {
            return Err(GrapherError::TooLarge);
        }
        Ok(Grapher { buf: filled_image(w, h, (0, 0, 0)), width: w, height: h, axis_enabled })
    }

    /// The number of columns.
    pub fn width(&self) -> (r: u32)
        ensures
            r == self.cols(),
    {
        self.width
    }

    /// The number of rows.
    pub fn height(&self) -> (r: u32)
        ensures
            r == self.rows(),
    {
        self.height
    }

    /// Half the width, rounded down.
    pub fn width_frac_2(&self) -> (r: i32)
        requires
            self.wf(),
        ensures
            r == self.cols() / 2,
    {
        self.width as i32 / 2
    }

    /// Half the height, rounded down.
    pub fn height_frac_2(&self) -> (r: i32)
        requires
            self.wf(),
        ensures
            r == self.rows() / 2,
    {
        self.height as i32 / 2
    }

    /// Maps a pixel offset, where `(0, 0)` is the centre and `y` grows upwards,
    /// to the cell `(column, row)` it stands for, where `(0, 0)` is the
    /// top-left corner.
    pub fn map_point(&self, x: i32, y: i32) -> (r: (u32, u32))
        requires
            self.wf(),
            is_offset(self.cols(), self.rows(), x as int, y as int),
        ensures
            (r.0 as int, r.1 as int) == corner_of(self.cols(), self.rows(), x as int, y as int),
            grid(self.cols(), self.rows(), (r.0 as int, r.1 as int)),
    {
        ((x + self.width_frac_2()) as u32, (self.height_frac_2() - y) as u32)
    }

    /// Paints cell `(x, y)` with `color`.
    pub fn put_pixel(&mut self, x: u32, y: u32, color: Rgb8)
        requires
            old(self).wf(),
            x < old(self).cols(),
            y < old(self).rows(),
        ensures
            final(self).wf(),
            final(self).cols() == old(self).cols(),
            final(self).rows() == old(self).rows(),
            final(self).axes_on() == old(self).axes_on(),
            final(self)@ == old(self)@.insert((x as int, y as int), color),
    {
        put_cell(&mut self.buf, x, y, color);
        proof {
            assert forall|k: (int, int)| #[trigger]
                buffer_cells(self.buf).dom().contains(k) <==> grid(self.width as int, self.height as int, k) by {
                assert(buffer_cells(old(self).buf).dom().contains(k) <==> grid(self.width as int, self.height as int, k));
            }
        }
    }

    /// Draws the axes through the centre cell `(width / 2, height / 2)`: a
    /// one-cell-wide black line along the middle column and the middle row,
    /// with a tick mark on each side of a line every `tick_space` cells. Tick
    /// cells that would fall outside the canvas are left out; every other cell
    /// keeps its colour.
    pub fn draw_axes(&mut self, tick_space: u32)
        requires
            old(self).wf(),
            tick_space > 0,
        ensures
            final(self).wf(),
            final(self).cols() == old(self).cols(),
            final(self).rows() == old(self).rows(),
            final(self).axes_on() == old(self).axes_on(),
            final(self)@ == axes_overlay(old(self)@, old(self).cols(), old(self).rows(), tick_space as int),
    {
        let ghost m0 = self@;
        let ghost w = self.cols();
        let ghost h = self.rows();
        let ghost t = tick_space as int;
        let cx = self.width / 2;
        let cy = self.height / 2;
        let mut y: u32 = 0;
        while y < self.height
            invariant
                self.wf(),
                self.cols() == w,
                self.rows() == h,
                self.axes_on() == old(self).axes_on(),
                m0 == old(self)@,
                t == tick_space,
                t > 0,
                cx == w / 2,
                cy == h / 2,
                y <= h,
                forall|k: (int, int)| #[trigger] self@.dom().contains(k) ==> self@[k] == (if on_vertical_axis(w, h, t, k.0, k.1) && k.1 < y {
                    black()
                } else {
                    m0[k]
                }),
            decreases h - y,
        {
            if y % tick_space == 0 {
                if cx + 1 < self.width {
                    self.put_pixel(cx + 1, y, (0, 0, 0));
                }
                if cx >= 1 {
                    self.put_pixel(cx - 1, y, (0, 0, 0));
                }
            }
            self.put_pixel(cx, y, (0, 0, 0));
            proof {
                assert forall|k: (int, int)| #[trigger] self@.dom().contains(k) implies self@[k] == (if on_vertical_axis(w, h, t, k.0, k.1) && k.1 < y + 1 {
                    black()
                } else {
                    m0[k]
                }) by {
                    if k.1 == y && on_vertical_axis(w, h, t, k.0, k.1) {
                        self.lemma_cells();
                    }
                }
            }
            y = y + 1;
        }
        let mut x: u32 = 0;
        while x < self.width
            invariant
                self.wf(),
                self.cols() == w,
                self.rows() == h,
                self.axes_on() == old(self).axes_on(),
                m0 == old(self)@,
                t == tick_space,
                t > 0,
                cx == w / 2,
                cy == h / 2,
                x <= w,
                forall|k: (int, int)| #[trigger] self@.dom().contains(k) ==> self@[k] == (if on_vertical_axis(w, h, t, k.0, k.1) || (on_horizontal_axis(w, h, t, k.0, k.1) && k.0 < x) {
                    black()
                } else {
                    m0[k]
                }),
            decreases w - x,
        {
            if x % tick_space == 0 {
                if cy + 1 < self.height {
                    self.put_pixel(x, cy + 1, (0, 0, 0));
                }
                if cy >= 1 {
                    self.put_pixel(x, cy - 1, (0, 0, 0));
                }
            }
            self.put_pixel(x, cy, (0, 0, 0));
            proof {
                assert forall|k: (int, int)| #[trigger] self@.dom().contains(k) implies self@[k] == (if on_vertical_axis(w, h, t, k.0, k.1) || (on_horizontal_axis(w, h, t, k.0, k.1) && k.0 < x + 1) {
                    black()
                } else {
                    m0[k]
                }) by {
                    if k.0 == x && on_horizontal_axis(w, h, t, k.0, k.1) {
                        self.lemma_cells();
                    }
                }
            }
            x = x + 1;
        }
        proof {
            self.lemma_cells();
            assert(self@ =~= axes_overlay(m0, w, h, t));
        }
    }

    /// One render pass. Every pixel offset `(x, y)` of the canvas is
    /// coloured by `color_at(x, y)`, which is painted into the cell
    /// `map_point(x, y)`; each cell is painted exactly once. When the axes are
    /// on, they are drawn over the plot afterwards with tick spacing
    /// `AXIS_TICK_SPACING`.
    pub fn update_plot<F: Fn(i32, i32) -> Rgb8>(&mut self, color_at: F)
        requires
            old(self).wf(),
            forall|x: i32, y: i32|
                is_offset(old(self).cols(), old(self).rows(), x as int, y as int) ==> #[trigger] color_at.requires((x, y)),
        ensures
            final(self).wf(),
            final(self).cols() == old(self).cols(),
            final(self).rows() == old(self).rows(),
            final(self).axes_on() == old(self).axes_on(),
            forall|x: i32, y: i32|
                is_offset(final(self).cols(), final(self).rows(), x as int, y as int) ==> {
                    let k = #[trigger] corner_of(final(self).cols(), final(self).rows(), x as int, y as int);
                    if final(self).axes_on() && on_axes(final(self).cols(), final(self).rows(), AXIS_TICK_SPACING as int, k) {
                        final(self)@[k] == black()
                    } else {
                        color_at.ensures((x, y), final(self)@[k])
                    }
                },
            forall|k: (int, int)| #[trigger] grid(final(self).cols(), final(self).rows(), k) ==> {
                let o = offset_of(final(self).cols(), final(self).rows(), k);
                if final(self).axes_on() && on_axes(final(self).cols(), final(self).rows(), AXIS_TICK_SPACING as int, k) {
                    final(self)@[k] == black()
                } else {
                    color_at.ensures((o.0 as i32, o.1 as i32), final(self)@[k])
                }
            },
    {
        let ghost w = self.cols();
        let ghost h = self.rows();
        let x_end = self.width as i32 - self.width_frac_2();
        let y_end = self.height_frac_2();
        let y_start = y_end - self.height as i32 + 1;
        let mut x: i32 = -self.width_frac_2();
        while x < x_end
            invariant
                self.wf(),
                self.cols() == w,
                self.rows() == h,
                self.axes_on() == old(self).axes_on(),
                x_end == w - w / 2,
                y_end == h / 2,
                y_start == h / 2 - h + 1,
                -(w / 2) <= x <= x_end,
                forall|a: i32, b: i32| is_offset(w, h, a as int, b as int) ==> #[trigger] color_at.requires((a, b)),
                forall|a: i32, b: i32|
                    is_offset(w, h, a as int, b as int) && a < x ==> color_at.ensures(
                        (a, b),
                        self@[#[trigger] corner_of(w, h, a as int, b as int)],
                    ),
            decreases x_end - x,
        {
            let mut y: i32 = y_start;
            while y <= y_end
                invariant
                    self.wf(),
                    self.cols() == w,
                    self.rows() == h,
                    self.axes_on() == old(self).axes_on(),
                    x_end == w - w / 2,
                    y_end == h / 2,
                    y_start == h / 2 - h + 1,
                    -(w / 2) <= x < x_end,
                    y_start <= y <= y_end + 1,
                    forall|a: i32, b: i32| is_offset(w, h, a as int, b as int) ==> #[trigger] color_at.requires((a, b)),
                    forall|a: i32, b: i32|
                        is_offset(w, h, a as int, b as int) && (a < x || (a == x && b < y)) ==> color_at.ensures(
                            (a, b),
                            self@[#[trigger] corner_of(w, h, a as int, b as int)],
                        ),
                decreases y_end + 1 - y,
            {
                assert(is_offset(w, h, x as int, y as int));
                let c = color_at(x, y);
                let p = self.map_point(x, y);
                self.put_pixel(p.0, p.1, c);
                y = y + 1;
            }
            x = x + 1;
        }
        proof {
            lemma_offsets_match_cells(w, h);
        }
        if self.axis_enabled {
            let ghost m = self@;
            self.draw_axes(AXIS_TICK_SPACING);
            proof {
                self.lemma_cells();
                assert forall|a: i32, b: i32| is_offset(w, h, a as int, b as int) && !on_axes(w, h, AXIS_TICK_SPACING as int, corner_of(w, h, a as int, b as int)) implies
                    self@[#[trigger] corner_of(w, h, a as int, b as int)] == m[corner_of(w, h, a as int, b as int)] by {
                    assert(grid(w, h, corner_of(w, h, a as int, b as int)));
                }
            }
        }
        proof {
            assert forall|k: (int, int)| #[trigger] grid(w, h, k) implies {
                let o = offset_of(w, h, k);
                if self.axes_on() && on_axes(w, h, AXIS_TICK_SPACING as int, k) {
                    self@[k] == black()
                } else {
                    color_at.ensures((o.0 as i32, o.1 as i32), self@[k])
                }
            } by {
                let o = offset_of(w, h, k);
                assert(is_offset(w, h, o.0, o.1));
                let a = o.0 as i32;
                let b = o.1 as i32;
                assert(corner_of(w, h, a as int, b as int) == k);
            }
        }
    }

    /// The colour of cell `(x, y)`.
    pub fn get_pixel(&self, x: u32, y: u32) -> (r: Rgb8)
        requires
            self.wf(),
            x < self.cols(),
            y < self.rows(),
        ensures
            r == self@[(x as int, y as int)],
    {
        get_cell(&self.buf, x, y)
    }

    /// Whether a render pass draws the axes.
    pub fn axis_enabled(&self) -> (r: bool)
        ensures
            r == self.axes_on(),
    {
        self.axis_enabled
    }

    /// Switches the axes on or off; the cells stay as they are until the
    /// next render pass.
    pub fn toggle_axes(&mut self)
        requires
            old(self).wf(),
        ensures
            final(self).axes_on() == !old(self).axes_on(),
            final(self).wf(),
            final(self).cols() == old(self).cols(),
            final(self).rows() == old(self).rows(),
            final(self)@ == old(self)@,
    {
        self.axis_enabled = !self.axis_enabled;
    }
}

} // verus!
