//! The decoded raster image: explicit width, height, and a row-major
//! buffer of 8-bit RGB channel values.

use vstd::prelude::*;

verus! {

/// Mathematical model of a raster image: dimensions plus the flat
/// row-major channel buffer.
pub ghost struct RasterView {
    pub width: nat,
    pub height: nat,
    pub data: Seq<u8>,
}

impl RasterView {
    /// A well-formed raster holds exactly `width * height` pixels of
    /// three channel bytes each, with dimensions small enough to be
    /// dimensions of a real decoded image.
    pub open spec fn wf(self) -> bool {
        &&& self.data.len() == self.width * self.height * 3
        &&& self.width <= u32::MAX
        &&& self.height <= u32::MAX
    }

    /// Channel `c` (0 = red, 1 = green, 2 = blue) of the pixel in row
    /// `row`, column `col`.
    pub open spec fn channel(self, row: int, col: int, c: int) -> u8 {
        self.data[(row * self.width + col) * 3 + c]
    }
}

/// A decoded RGB image: `width * height` pixels, row-major, three
/// channel bytes per pixel.
pub struct RasterImage {
    pub width: usize,
    pub height: usize,
    pub data: Vec<u8>,
}

impl View for RasterImage {
    type V = RasterView;

    open spec fn view(&self) -> RasterView {
        RasterView { width: self.width as nat, height: self.height as nat, data: self.data@ }
    }
}

impl RasterImage {
    /// Buffer length matches the dimensions.
    pub open spec fn wf(self) -> bool {
        self@.wf()
    }

    /// Build a raster from explicit parts.
    pub fn new(width: usize, height: usize, data: Vec<u8>) -> (r: RasterImage)
        requires
            data@.len() == width * height * 3,
            width <= u32::MAX,
            height <= u32::MAX,
        ensures
            r.wf(),
            r@ == (RasterView { width: width as nat, height: height as nat, data: data@ }),
    {
        RasterImage { width, height, data }
    }

    /// Read one channel byte of one pixel.
    pub fn channel_at(&self, row: usize, col: usize, c: usize) -> (v: u8)
        requires
            self.wf(),
            row < self@.height,
            col < self@.width,
            c < 3,
        ensures
            v == self@.channel(row as int, col as int, c as int),
    {
        let _n: usize = self.data.len();
        proof {
            lemma_pixel_offset_in_bounds(self@.width, self@.height, row as int, col as int);
        }
        self.data[(row * self.width + col) * 3 + c]
    }
}

/// Any pixel's channel offsets lie inside a well-formed buffer.
pub proof fn lemma_pixel_offset_in_bounds(w: nat, h: nat, row: int, col: int)
    by (nonlinear_arith)
    requires
        0 <= row < h,
        0 <= col < w,
    ensures
        (row * w + col) * 3 + 2 < w * h * 3,
        0 <= row * w + col,
        row * w + col < w * h,
{
}

} // verus!
