//! The `image` crate's RGB buffer, seen by the verifier through a map from
//! cell coordinates to colours.

use vstd::prelude::*;

verus! {

/// An RGB colour with eight bits per channel.
pub type Rgb8 = (u8, u8, u8);

/// A grid of RGB cells, kept in the `image` crate's `RgbImage`.
#[verifier::external_body]
pub struct PixelBuffer {
    img: image::RgbImage,
}

/// What an RGB buffer holds: the colour of each cell `(column, row)`.
pub uninterp spec fn buffer_cells(b: PixelBuffer) -> Map<(int, int), Rgb8>;

/// The cells `(column, row)` of a `w` by `h` grid.
pub open spec fn grid(w: int, h: int, k: (int, int)) -> bool {
    0 <= k.0 < w && 0 <= k.1 < h
}

/// Relies on `ImageBuffer::from_pixel`: a `w` by `h` buffer whose cells all
/// hold `c`. It panics when `3 * w`, or `3 * w * h`, overflows `usize`;
/// with both sides positive the second bound implies the first.
#[verifier::external_body]
pub(crate) fn filled_image(w: u32, h: u32, c: Rgb8) -> (r: PixelBuffer)
    requires
        w > 0,
        h > 0,
        3 * (w as int) * (h as int) <= usize::MAX,
    ensures
        forall|k: (int, int)| buffer_cells(r).dom().contains(k) <==> grid(w as int, h as int, k),
        forall|k: (int, int)| #[trigger] buffer_cells(r).dom().contains(k) ==> buffer_cells(r)[k] == c,
{
    PixelBuffer { img: image::RgbImage::from_pixel(w, h, image::Rgb([c.0, c.1, c.2])) }
}

/// Relies on `ImageBuffer::put_pixel`: cell `(x, y)` takes colour `c` and no
/// other cell changes. It panics outside the buffer.
#[verifier::external_body]
pub(crate) fn put_cell(b: &mut PixelBuffer, x: u32, y: u32, c: Rgb8)
    requires
        buffer_cells(*old(b)).dom().contains((x as int, y as int)),
    ensures
        buffer_cells(*final(b)) == buffer_cells(*old(b)).insert((x as int, y as int), c),
{
    b.img.put_pixel(x, y, image::Rgb([c.0, c.1, c.2]))
}

/// Relies on `ImageBuffer::get_pixel`: the colour of cell `(x, y)`. It panics
/// outside the buffer.
#[verifier::external_body]
pub(crate) fn get_cell(b: &PixelBuffer, x: u32, y: u32) -> (r: Rgb8)
    requires
        buffer_cells(*b).dom().contains((x as int, y as int)),
    ensures
        r == buffer_cells(*b)[(x as int, y as int)],
{
    let p = b.img.get_pixel(x, y);
    (p.0[0], p.0[1], p.0[2])
}

} // verus!
