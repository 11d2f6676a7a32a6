//! Image comparison (diffing) for computer graphics renderer test cases.
//!
//! The comparison is neighborhood-sensitive: a pixel of one image is compared
//! against the 3x3 neighborhood of the corresponding pixel of the other image,
//! in both directions, so that features displaced by at most one pixel are not
//! counted as differences. The result is a histogram of difference magnitudes,
//! which can be judged against a [`Threshold`], and an optional visualization
//! image for human inspection.

pub mod diff;
pub mod histogram;
pub mod image;
pub mod threshold;
pub mod visualize;

pub use diff::{diff, half_diff, pixel_diff, Difference};
pub use histogram::Histogram;
pub use threshold::Threshold;
pub use image::{luma_to_rgba, rgba_to_luma, Image, RgbaPixel};
