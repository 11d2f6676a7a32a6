//! The image buffer type that the comparison consumes, and the conversions
//! between single pixels and luma values.

use vstd::prelude::*;

verus! {

/// A single pixel: red, green, blue and alpha channels, one byte each.
pub type RgbaPixel = [u8; 4];

/// Mathematical model of an image buffer: a width, a height, and a row-major
/// sequence of RGBA pixels covering the whole grid.
pub ghost struct ImageView {
    pub width: nat,
    pub height: nat,
    pub pixels: Seq<RgbaPixel>,
}

impl ImageView {
    /// Exact-size contract of the buffer: one pixel per grid position.
    pub open spec fn wf(self) -> bool {
        self.pixels.len() == self.width * self.height
    }

    /// The pixel at column `x`, row `y` of the row-major grid.
    pub open spec fn pixel(self, x: int, y: int) -> RgbaPixel
        recommends
            0 <= x < self.width,
            0 <= y < self.height,
    {
        self.pixels[y * self.width + x]
    }
}

/// An owned RGBA image buffer holding `width * height` pixels in row-major
/// order.
#[derive(Clone, Debug, PartialEq, Eq, Hash)]
pub struct Image {
    width: usize,
    height: usize,
    pixels: Vec<RgbaPixel>,
}

impl View for Image {
    type V = ImageView;

    closed spec fn view(&self) -> ImageView {
        ImageView {
            width: self.width as nat,
            height: self.height as nat,
            pixels: self.pixels@,
        }
    }
}

/// A position strictly inside a `w`-by-`h` grid maps to a row-major index
/// strictly inside the buffer.
pub proof fn lemma_row_major_bound(x: int, y: int, w: int, h: int)
    requires
        0 <= x < w,
        0 <= y < h,
    ensures
        0 <= y * w + x < w * h,
{
    assert(0 <= y * w + x < w * h) by (nonlinear_arith)
        requires
            0 <= x < w,
            0 <= y < h,
    ;
}

impl Image {
    /// Wraps a row-major pixel buffer as an image of the given dimensions.
    /// The buffer must hold exactly one pixel per grid position.
    pub fn new(pixels: Vec<RgbaPixel>, width: usize, height: usize) -> (r: Image)
        requires
            pixels@.len() == width * height,
        ensures
            r@ == (ImageView {
                width: width as nat,
                height: height as nat,
                pixels: pixels@,
            }),
            r@.wf(),
    {
        Image { width, height, pixels }
    }

    /// The number of pixel columns.
    pub fn width(&self) -> (w: usize)
        ensures
            w == self@.width,
    {
        self.width
    }

    /// The number of pixel rows.
    pub fn height(&self) -> (h: usize)
        ensures
            h == self@.height,
    {
        self.height
    }

    /// The total number of pixels in the buffer.
    pub fn pixel_count(&self) -> (n: usize)
        ensures
            n == self@.pixels.len(),
    {
        self.pixels.len()
    }

    /// Reads the pixel at column `x`, row `y`.
    pub fn pixel(&self, x: usize, y: usize) -> (p: RgbaPixel)
        requires
            self@.wf(),
            x < self@.width,
            y < self@.height,
        ensures
            p == self@.pixel(x as int, y as int),
    {
        proof {
            lemma_row_major_bound(x as int, y as int, self@.width as int, self@.height as int);
        }
        let buffer_len: usize = self.pixels.len();
        assert(y * self@.width + x < buffer_len);
        self.pixels[y * self.width + x]
    }
}

/// The luma of an RGB triple: the weighted sum of the channels with weights
/// approximating 0.2126, 0.7152 and 0.0722, computed in integers scaled by
/// 10000 and truncated. Always within `0..256`.
pub open spec fn spec_luma(r: u8, g: u8, b: u8) -> int {
    (2126 * r + 7152 * g + 722 * b) / 10000
}

/// Converts a pixel's color channels to a single luma byte, ignoring alpha.
///
/// This weighted sum is applied directly to the encoded (non-linear) channel
/// values, a deliberate historical approximation: it yields luma, not
/// luminance.
pub fn rgba_to_luma(pixel: RgbaPixel) -> (luma: u8)
    ensures
        luma == spec_luma(pixel[0], pixel[1], pixel[2]),
{
    let weighted: u32 = 2126 * (pixel[0] as u32) + 7152 * (pixel[1] as u32) + 722 * (pixel[2]
        as u32);
    (weighted / 10000) as u8
}

/// Expands a luma byte to an opaque gray pixel.
pub fn luma_to_rgba(luma: u8) -> (p: RgbaPixel)
    ensures
        p[0] == luma,
        p[1] == luma,
        p[2] == luma,
        p[3] == 255,
{
    [luma, luma, luma, 255]
}

} // verus!
