//! The pixel grid: a rectangle of RGBA pixels, kept in an image buffer of the
//! `image` crate and seen through its dimensions and its channel values.

use vstd::prelude::*;

verus! {

/// A rectangular grid of pixels, each of four 8-bit channels.
///
/// The buffer is opaque to the verifier. What is said of a grid is said
/// through `grid_width`, `grid_height` and `grid_samples`, and rests on the
/// contracts of the private functions at the end of this file, which are
/// taken from the `image` crate's source and not proved.
#[verifier::external_body]
#[derive(Debug, PartialEq, Eq)]
pub struct PixelGrid {
    buffer: image::RgbaImage,
}

/// The number of pixels in a row of the grid.
pub uninterp spec fn grid_width(grid: PixelGrid) -> nat;

/// The number of rows of the grid.
pub uninterp spec fn grid_height(grid: PixelGrid) -> nat;

/// The channel values of the grid's pixels, four for each pixel, with the
/// pixels in row-major order.
pub uninterp spec fn grid_samples(grid: PixelGrid) -> Seq<u8>;

/// Where the first channel of the pixel at `(x, y)` stands among the samples
/// of a grid that is `width` pixels wide.
pub open spec fn sample_offset(width: int, x: int, y: int) -> int {
    4 * (y * width + x)
}

/// The four channels of the pixel at `(x, y)`.
pub open spec fn pixel_at(grid: PixelGrid, x: int, y: int) -> Seq<u8> {
    let at = sample_offset(grid_width(grid) as int, x, y);
    grid_samples(grid).subrange(at, at + 4)
}

/// A grid holds four samples for each of its `width * height` pixels.
pub open spec fn well_formed(grid: PixelGrid) -> bool {
    grid_samples(grid).len() == 4 * grid_width(grid) * grid_height(grid)
}

/// Whether a grid of these dimensions can be held in memory: its samples
/// are bytes of one allocation, which is at most `isize::MAX` long.
pub open spec fn fits_in_memory(width: int, height: int) -> bool {
    4 * width * height <= isize::MAX
}

/// What `after` is when the pixel at `(x, y)` of `before` has been given
/// `channels` and nothing else has changed.
pub open spec fn is_update_of(
    after: PixelGrid,
    before: PixelGrid,
    x: int,
    y: int,
    channels: Seq<u8>,
) -> bool {
    let at = sample_offset(grid_width(before) as int, x, y);
    &&& grid_width(after) == grid_width(before)
    &&& grid_height(after) == grid_height(before)
    &&& grid_samples(after).len() == grid_samples(before).len()
    &&& forall|i: int|
        0 <= i < grid_samples(before).len() ==> #[trigger] grid_samples(after)[i] == (if at <= i
            && i < at + 4 {
            channels[i - at]
        } else {
            grid_samples(before)[i]
        })
}

impl PixelGrid {
    /// A grid of `width` by `height` pixels whose channels are all zero, or
    /// `None` where such a grid does not fit in memory.
    pub fn new(width: u32, height: u32) -> (r: Option<PixelGrid>)
        ensures
            match r {
                Some(grid) => {
                    &&& fits_in_memory(width as int, height as int)
                    &&& grid_width(grid) == width
                    &&& grid_height(grid) == height
                    &&& grid_samples(grid) == Seq::new((4 * width * height) as nat, |i: int| 0u8)
                },
                None => !fits_in_memory(width as int, height as int),
            },
    {
        assert(4 * width * height == 4 * (width * height)) by (nonlinear_arith);
        assert(width * height <= 0xffff_ffff * 0xffff_ffff) by (nonlinear_arith)
            requires
                0 <= width <= 0xffff_ffff,
                0 <= height <= 0xffff_ffff,
        ;
        let samples: u128 = 4 * (width as u128 * height as u128);
        if samples <= isize::MAX as u128 {
            Some(new_grid(width, height))
        } else {
            None
        }
    }

    /// The number of pixels in a row.
    pub fn width(&self) -> (w: u32)
        ensures
            w == grid_width(*self),
            well_formed(*self),
    {
        let (w, h) = dimensions(self);
        w
    }

    /// The number of rows.
    pub fn height(&self) -> (h: u32)
        ensures
            h == grid_height(*self),
            well_formed(*self),
    {
        let (w, h) = dimensions(self);
        h
    }

    /// The four channels of the pixel at `(x, y)`, or `None` where `(x, y)`
    /// lies outside the grid.
    pub fn pixel(&self, x: u32, y: u32) -> (r: Option<[u8; 4]>)
        ensures
            match r {
                Some(channels) => {
                    &&& x < grid_width(*self)
                    &&& y < grid_height(*self)
                    &&& channels@ == pixel_at(*self, x as int, y as int)
                },
                None => !(x < grid_width(*self) && y < grid_height(*self)),
            },
    {
        let (w, h) = dimensions(self);
        if x < w && y < h {
            Some(get_pixel(self, x, y))
        } else {
            None
        }
    }

    /// Gives the pixel at `(x, y)` the four channels and answers `true`, or
    /// leaves the grid as it is and answers `false` where `(x, y)` lies
    /// outside it.
    pub fn set_pixel(&mut self, x: u32, y: u32, channels: [u8; 4]) -> (done: bool)
        ensures
            done <==> x < grid_width(*old(self)) && y < grid_height(*old(self)),
            done ==> is_update_of(*final(self), *old(self), x as int, y as int, channels@),
            !done ==> *final(self) == *old(self),
    {
        let (w, h) = dimensions(self);
        if x < w && y < h {
            put_pixel(self, x, y, channels);
            true
        } else {
            false
        }
    }
}

/// `ImageBuffer::new`: a grid of the given dimensions whose channels are all
/// zero. The source panics where the number of samples overflows `usize`, and
/// the vector that it allocates can hold at most `isize::MAX` bytes.
#[verifier::external_body]
pub(crate) fn new_grid(width: u32, height: u32) -> (grid: PixelGrid)
    requires
        fits_in_memory(width as int, height as int),
    ensures
        grid_width(grid) == width,
        grid_height(grid) == height,
        grid_samples(grid) == Seq::new((4 * width * height) as nat, |i: int| 0u8),
{
    PixelGrid { buffer: image::ImageBuffer::new(width, height) }
}

/// `ImageBuffer::dimensions`: the width and the height of the grid, in this
/// order. The buffer's pixels are the first `4 * width * height` samples of
/// its container, a length that the `image` crate checks when it makes one.
#[verifier::external_body]
pub(crate) fn dimensions(grid: &PixelGrid) -> (d: (u32, u32))
    ensures
        d.0 == grid_width(*grid),
        d.1 == grid_height(*grid),
        grid_samples(*grid).len() == 4 * d.0 * d.1,
{
    grid.buffer.dimensions()
}

/// `ImageBuffer::get_pixel`: the four channels of the pixel at `(x, y)`. The
/// source panics where `(x, y)` lies outside the grid.
#[verifier::external_body]
pub(crate) fn get_pixel(grid: &PixelGrid, x: u32, y: u32) -> (channels: [u8; 4])
    requires
        x < grid_width(*grid),
        y < grid_height(*grid),
    ensures
        channels@ == pixel_at(*grid, x as int, y as int),
{
    grid.buffer.get_pixel(x, y).0
}

/// `ImageBuffer::get_pixel_mut`, assigned through: the pixel at `(x, y)` takes
/// the four channels given; every other sample and the dimensions stay. The
/// source panics where `(x, y)` lies outside the grid.
#[verifier::external_body]
pub(crate) fn put_pixel(grid: &mut PixelGrid, x: u32, y: u32, channels: [u8; 4])
    requires
        x < grid_width(*old(grid)),
        y < grid_height(*old(grid)),
    ensures
        is_update_of(*final(grid), *old(grid), x as int, y as int, channels@),
{
    *grid.buffer.get_pixel_mut(x, y) = image::Rgba(channels);
}

} // verus!
