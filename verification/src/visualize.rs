//! Rendering of the combined magnitude map as a human-viewable image.

use vstd::arithmetic::div_mod::{
    lemma_fundamental_div_mod_converse_div, lemma_fundamental_div_mod_converse_mod,
};
use vstd::prelude::*;

use crate::diff::{interior_height, interior_width};
use crate::histogram::{spec_max_difference, Histogram};
use crate::image::{lemma_row_major_bound, spec_luma, Image, ImageView, RgbaPixel};

verus! {

/// A magnitude linearly rescaled so that the largest observed magnitude maps
/// to 255. When the largest observed magnitude is 0 there is nothing to
/// amplify, and the rescaled value is 0.
pub open spec fn spec_amplified(raw: u8, max_difference: int) -> int {
    if max_difference == 0 {
        0
    } else {
        raw * 255 / max_difference
    }
}

/// What a visualization pixel holds: the reference pixel's luma dimmed to a
/// third in the red channel, so it gives spatial context without
/// distracting; the amplified magnitude in the green and blue channels, so
/// larger differences stand out brighter in cyan; and full opacity.
pub open spec fn is_vis_pixel(
    p: RgbaPixel,
    reference_pixel: RgbaPixel,
    raw: u8,
    max_difference: int,
) -> bool {
    &&& p[0] == spec_luma(reference_pixel[0], reference_pixel[1], reference_pixel[2]) / 3
    &&& p[1] == spec_amplified(raw, max_difference)
    &&& p[2] == spec_amplified(raw, max_difference)
    &&& p[3] == 255
}

/// Take the raw combined magnitude values and visualize them, making small
/// magnitudes more visible by rescaling them against the largest one that
/// the histogram records.
///
/// The result matches the magnitude map's dimensions: two less, in each
/// direction, than the reference image's.
#[verifier::loop_isolation(false)]
pub(crate) fn visualize(reference: &Image, raw_diff: &Vec<u8>, histogram: &Histogram) -> (r: Image)
    requires
        reference@.wf(),
        raw_diff@.len() == interior_width(reference@) * interior_height(reference@),
        forall|i: int|
            0 <= i < raw_diff@.len() ==> #[trigger] raw_diff@[i] <= spec_max_difference(
                histogram.0@,
            ),
    ensures
        r@.wf(),
        r@.width == interior_width(reference@),
        r@.height == interior_height(reference@),
        forall|i: int|
            0 <= i < raw_diff@.len() ==> is_vis_pixel(
                #[trigger] r@.pixels[i],
                reference@.pixel(
                    i % interior_width(reference@) + 1,
                    i / interior_width(reference@) + 1,
                ),
                raw_diff@[i],
                spec_max_difference(histogram.0@),
            ),
{
    let w = reference.width();
    let h = reference.height();
    let iw: usize = if w >= 2 {
        w - 2
    } else {
        0
    };
    let ih: usize = if h >= 2 {
        h - 2
    } else {
        0
    };
    let max_difference = histogram.max_difference();
    let buffer_len: usize = raw_diff.len();

    let mut pixels: Vec<RgbaPixel> = Vec::new();
    proof {
        assert(0 * iw as int == 0) by (nonlinear_arith);
    }
    for y in 0..ih
        invariant
            pixels@.len() == y * iw,
            forall|i: int|
                0 <= i < pixels@.len() ==> is_vis_pixel(
                    #[trigger] pixels@[i],
                    reference@.pixel(i % iw as int + 1, i / iw as int + 1),
                    raw_diff@[i],
                    spec_max_difference(histogram.0@),
                ),
    {
        for x in 0..iw
            invariant
                pixels@.len() == y * iw + x,
                forall|i: int|
                    0 <= i < pixels@.len() ==> is_vis_pixel(
                        #[trigger] pixels@[i],
                        reference@.pixel(i % iw as int + 1, i / iw as int + 1),
                        raw_diff@[i],
                        spec_max_difference(histogram.0@),
                    ),
        {
            let reference_value = crate::image::rgba_to_luma(reference.pixel(x + 1, y + 1));

            proof {
                lemma_row_major_bound(x as int, y as int, iw as int, ih as int);
                let i0 = y * iw + x;
                lemma_fundamental_div_mod_converse_div(i0 as int, iw as int, y as int, x as int);
                lemma_fundamental_div_mod_converse_mod(i0 as int, iw as int, y as int, x as int);
            }
            let index = y * iw + x;
            let raw_value = raw_diff[index];

            let amplified: u8 = if max_difference == 0 {
                0
            } else {
                proof {
                    assert(raw_value * 255 / max_difference as int <= 255) by (nonlinear_arith)
                        requires
                            1 <= max_difference,
                            raw_value <= max_difference,
                    ;
                }
                ((raw_value as u32) * 255 / (max_difference as u32)) as u8
            };

            pixels.push([reference_value / 3, amplified, amplified, 255]);
        }
        proof {
            assert((y as int + 1) * iw as int == y as int * iw as int + iw as int)
                by (nonlinear_arith);
        }
    }
    proof {
        assert(ih * iw == iw * ih) by (nonlinear_arith);
    }
    Image::new(pixels, iw, ih)
}

} // verus!
