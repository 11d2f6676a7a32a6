//! The bidirectional neighborhood comparison: the per-pixel distance, the
//! one-sided directional scan, and the orchestrator combining both
//! directions into a histogram and a visualization.

use vstd::arithmetic::div_mod::{
    lemma_fundamental_div_mod_converse_div, lemma_fundamental_div_mod_converse_mod,
};
use vstd::math::max;
use vstd::math::min;
use vstd::prelude::*;

use crate::histogram::{
    band_sum, count_of, histogram_of, lemma_band_sum_extend, lemma_band_sum_zero_iff,
    lemma_count_of_uniform, lemma_count_partition, spec_max_difference, Histogram,
};
use crate::image::{spec_luma, Image, ImageView, RgbaPixel};

verus! {

/// The absolute difference of two channel bytes.
pub open spec fn channel_diff(a: u8, b: u8) -> u8 {
    if a >= b {
        (a - b) as u8
    } else {
        (b - a) as u8
    }
}

/// The difference magnitude of two pixels: the luma of the channel-wise
/// absolute color differences, or the absolute alpha difference, whichever
/// is larger. Always within `0..256`.
pub open spec fn spec_pixel_diff(a: RgbaPixel, b: RgbaPixel) -> int {
    max(
        spec_luma(channel_diff(a[0], b[0]), channel_diff(a[1], b[1]), channel_diff(a[2], b[2])),
        channel_diff(a[3], b[3]) as int,
    )
}

/// The luma of any RGB triple lies within `0..256`.
pub proof fn lemma_luma_bounds(r: u8, g: u8, b: u8)
    ensures
        0 <= spec_luma(r, g, b) <= 255,
{
    assert(2126 * r + 7152 * g + 722 * b <= 2126 * 255 + 7152 * 255 + 722 * 255) by (nonlinear_arith)
        requires
            r <= 255,
            g <= 255,
            b <= 255,
    ;
}

/// The pixel difference magnitude lies within `0..256`.
pub proof fn lemma_pixel_diff_bounds(a: RgbaPixel, b: RgbaPixel)
    ensures
        0 <= spec_pixel_diff(a, b) <= 255,
{
    lemma_luma_bounds(channel_diff(a[0], b[0]), channel_diff(a[1], b[1]), channel_diff(a[2], b[2]));
}

fn channel_abs_diff(a: u8, b: u8) -> (r: u8)
    ensures
        r == channel_diff(a, b),
{
    if a >= b {
        a - b
    } else {
        b - a
    }
}

/// Compare two pixel values and produce a difference magnitude.
///
/// The three color channels are compared independently and the differences
/// are collapsed to a single luma value; the alpha channels are compared
/// directly, and the larger of the two differences is the result, so alpha
/// and color differences count as equally significant.
pub fn pixel_diff(a: RgbaPixel, b: RgbaPixel) -> (r: u8)
    ensures
        r == spec_pixel_diff(a, b),
{
    let r_diff = channel_abs_diff(a[0], b[0]);
    let g_diff = channel_abs_diff(a[1], b[1]);
    let b_diff = channel_abs_diff(a[2], b[2]);
    let a_diff = channel_abs_diff(a[3], b[3]);

    let color_diff = crate::image::rgba_to_luma([r_diff, g_diff, b_diff, 255]);

    if color_diff >= a_diff {
        color_diff
    } else {
        a_diff
    }
}

/// The width of the interior grid that the scan evaluates: two less than the
/// image's width, because the one-pixel border has no full 3x3 neighborhood.
/// Images narrower than two pixels have an empty interior.
pub open spec fn interior_width(v: ImageView) -> int {
    if v.width >= 2 {
        v.width - 2
    } else {
        0
    }
}

/// The height of the interior grid that the scan evaluates; see
/// [`interior_width`].
pub open spec fn interior_height(v: ImageView) -> int {
    if v.height >= 2 {
        v.height - 2
    } else {
        0
    }
}

/// The difference between `have`'s pixel at interior position `(x, y)` and
/// the `k`-th pixel, in row-major order, of the 3x3 neighborhood of `want`
/// centered on the corresponding pixel.
pub open spec fn neighbor_diff(have: ImageView, want: ImageView, x: int, y: int, k: int) -> int {
    spec_pixel_diff(have.pixel(x + 1, y + 1), want.pixel(x + k % 3, y + k / 3))
}

/// The minimum of the first `k` neighbor differences at interior position
/// `(x, y)`.
pub open spec fn min_neighbor_diff_upto(
    have: ImageView,
    want: ImageView,
    x: int,
    y: int,
    k: int,
) -> int
    decreases k,
{
    if k <= 1 {
        neighbor_diff(have, want, x, y, 0)
    } else {
        min(
            min_neighbor_diff_upto(have, want, x, y, k - 1),
            neighbor_diff(have, want, x, y, k - 1),
        )
    }
}

/// The one-sided magnitude at interior position `(x, y)`: the smallest
/// difference between `have`'s pixel there and any pixel of the 3x3
/// neighborhood of `want` centered on the corresponding position.
pub open spec fn spec_half_diff_at(have: ImageView, want: ImageView, x: int, y: int) -> int {
    min_neighbor_diff_upto(have, want, x, y, 9)
}

/// The one-sided magnitude lies within `0..256`.
pub proof fn lemma_half_diff_bounds(have: ImageView, want: ImageView, x: int, y: int, k: int)
    requires
        1 <= k <= 9,
    ensures
        0 <= min_neighbor_diff_upto(have, want, x, y, k) <= 255,
    decreases k,
{
    lemma_pixel_diff_bounds(have.pixel(x + 1, y + 1), want.pixel(x + (k - 1) % 3, y + (k - 1) / 3));
    if k > 1 {
        lemma_half_diff_bounds(have, want, x, y, k - 1);
    }
}

/// Compare each interior pixel of `have` against the 3x3 neighborhood of
/// `want` centered on the corresponding position, and record the smallest
/// difference found there. The result is the row-major magnitude map of the
/// interior grid, whose dimensions are two less than the images'.
///
/// Each pixel's color must be approximately equal to some pixel in the
/// neighborhood: this tolerates features displaced by at most one pixel.
/// It is "half" of the complete diffing process, because a one-pixel-wide
/// feature of `want` that vanishes entirely from `have` is invisible to it;
/// the orchestrator therefore runs it in both directions.
#[verifier::loop_isolation(false)]
pub fn half_diff(have: &Image, want: &Image) -> (r: Vec<u8>)
    requires
        have@.wf(),
        want@.wf(),
        have@.width == want@.width,
        have@.height == want@.height,
    ensures
        r@.len() == interior_width(have@) * interior_height(have@),
        forall|i: int|
            0 <= i < r@.len() ==> #[trigger] r@[i] == spec_half_diff_at(
                have@,
                want@,
                i % interior_width(have@),
                i / interior_width(have@),
            ),
{
    let w = have.width();
    let h = have.height();
    let iw: usize = if w >= 2 {
        w - 2
    } else {
        0
    };
    let ih: usize = if h >= 2 {
        h - 2
    } else {
        0
    };

    let mut buffer: Vec<u8> = Vec::new();
    proof {
        assert(0 * iw as int == 0) by (nonlinear_arith);
    }
    for y in 0..ih
        invariant
            buffer@.len() == y * iw,
            forall|i: int|
                0 <= i < buffer@.len() ==> #[trigger] buffer@[i] == spec_half_diff_at(
                    have@,
                    want@,
                    i % iw as int,
                    i / iw as int,
                ),
    {
        for x in 0..iw
            invariant
                buffer@.len() == y * iw + x,
                forall|i: int|
                    0 <= i < buffer@.len() ==> #[trigger] buffer@[i] == spec_half_diff_at(
                        have@,
                        want@,
                        i % iw as int,
                        i / iw as int,
                    ),
        {
            let have_pixel = have.pixel(x + 1, y + 1);
            let mut minimum: u8 = pixel_diff(have_pixel, want.pixel(x, y));
            for k in 1..9usize
                invariant
                    minimum == min_neighbor_diff_upto(have@, want@, x as int, y as int, k as int),
            {
                let dx = k % 3;
                let dy = k / 3;
                let d = pixel_diff(have_pixel, want.pixel(x + dx, y + dy));
                if d < minimum {
                    minimum = d;
                }
            }
            proof {
                let i0 = y * iw + x;
                lemma_fundamental_div_mod_converse_div(i0 as int, iw as int, y as int, x as int);
                lemma_fundamental_div_mod_converse_mod(i0 as int, iw as int, y as int, x as int);
            }
            buffer.push(minimum);
        }
        proof {
            assert((y as int + 1) * iw as int == y as int * iw as int + iw as int)
                by (nonlinear_arith);
        }
    }
    proof {
        assert(ih * iw == iw * ih) by (nonlinear_arith);
    }
    buffer
}

/// Whether two image buffers have the same dimensions.
pub open spec fn spec_same_size(a: ImageView, e: ImageView) -> bool {
    a.width == e.width && a.height == e.height
}

/// The combined magnitude at interior position `(x, y)`: the larger of the
/// two one-sided magnitudes, so that both directions must report a low
/// difference for the combined value to be low. This closes the gap left by
/// a single directional scan, from which a vanishing one-pixel feature can
/// hide.
pub open spec fn combined_magnitude(actual: ImageView, expected: ImageView, x: int, y: int) -> int {
    max(spec_half_diff_at(expected, actual, x, y), spec_half_diff_at(actual, expected, x, y))
}

/// The row-major combined magnitude map of the interior grid of two
/// same-size images.
pub open spec fn combined_map(actual: ImageView, expected: ImageView) -> Seq<u8> {
    Seq::new(
        (interior_width(expected) * interior_height(expected)) as nat,
        |i: int|
            combined_magnitude(
                actual,
                expected,
                i % interior_width(expected),
                i / interior_width(expected),
            ) as u8,
    )
}

/// What bin `m` of the difference histogram holds: for same-size images,
/// the number of interior positions whose combined magnitude is `m`; for
/// images of differing dimensions, every pixel of the larger image counts
/// as maximally different, so bin 255 holds that pixel count and every
/// other bin is zero.
pub open spec fn diff_bin(actual: ImageView, expected: ImageView, m: u8) -> int {
    if spec_same_size(actual, expected) {
        count_of(combined_map(actual, expected), m) as int
    } else if m == 255 {
        max(actual.pixels.len() as int, expected.pixels.len() as int)
    } else {
        0
    }
}

/// Output of [`diff()`], a comparison between two images.
#[derive(Clone, Debug, PartialEq, Eq, Hash)]
pub struct Difference {
    /// A histogram of magnitudes of the detected differences.
    pub histogram: Histogram,
    /// An image intended for human viewing of which pixels are different,
    /// or `None` if the images had different sizes.
    ///
    /// It is two pixels smaller than the compared images in each dimension,
    /// because the border has no full neighborhood to compare against. The
    /// red channel carries a dimmed copy of the input `expected` image, and
    /// the blue and green channels carry differences, rescaled for high
    /// visibility.
    pub diff_image: Option<Image>,
}

/// Compares two RGBA images with a neighborhood-sensitive comparison which
/// counts one pixel worth of displacement as not a difference.
///
/// The result is direction-symmetric except for the visualization, which is
/// built from `expected`. If the images have different sizes, the result is
/// the maximum difference and carries no visualization. Differences in the
/// alpha channel are counted the same as differences in luma.
///
/// This function has no options for ignoring small color differences;
/// rather, the result can be checked against a
/// [`Threshold`](crate::Threshold).
pub fn diff(actual: &Image, expected: &Image) -> (r: Difference)
    requires
        actual@.wf(),
        expected@.wf(),
    ensures
        forall|m: u8| #[trigger] r.histogram.0@[m as int] == diff_bin(actual@, expected@, m),
        r.diff_image is Some <==> spec_same_size(actual@, expected@),
        r.diff_image matches Some(img) ==> {
            &&& img@.wf()
            &&& img@.width == interior_width(expected@)
            &&& img@.height == interior_height(expected@)
            &&& forall|i: int|
                0 <= i < combined_map(actual@, expected@).len() ==> crate::visualize::is_vis_pixel(
                    #[trigger] img@.pixels[i],
                    expected@.pixel(
                        i % interior_width(expected@) + 1,
                        i / interior_width(expected@) + 1,
                    ),
                    combined_map(actual@, expected@)[i],
                    spec_max_difference(r.histogram.0@),
                )
        },
{
    if actual.width() != expected.width() || actual.height() != expected.height() {
        // Count it as every pixel different.
        let mut table: [usize; 256] = [0; 256];
        let actual_count = actual.pixel_count();
        let expected_count = expected.pixel_count();
        table[255] = if expected_count >= actual_count {
            expected_count
        } else {
            actual_count
        };
        return Difference { histogram: Histogram(table), diff_image: None };
    }

    let hd1 = half_diff(expected, actual);
    let hd2 = half_diff(actual, expected);

    // Combine the two directional scans: both must be small for the output
    // to be small.
    let total = hd1.len();
    let mut combined: Vec<u8> = Vec::new();
    for i in 0..total
        invariant
            combined@.len() == i,
            forall|j: int|
                0 <= j < i ==> #[trigger] combined@[j] == combined_map(actual@, expected@)[j],
            hd1@.len() == combined_map(actual@, expected@).len(),
            hd2@.len() == hd1@.len(),
            total == hd1@.len(),
            actual@.wf(),
            expected@.wf(),
            spec_same_size(actual@, expected@),
            forall|i2: int|
                0 <= i2 < hd1@.len() ==> #[trigger] hd1@[i2] == spec_half_diff_at(
                    expected@,
                    actual@,
                    i2 % interior_width(expected@),
                    i2 / interior_width(expected@),
                ),
            forall|i2: int|
                0 <= i2 < hd2@.len() ==> #[trigger] hd2@[i2] == spec_half_diff_at(
                    actual@,
                    expected@,
                    i2 % interior_width(expected@),
                    i2 / interior_width(expected@),
                ),
    {
        let v1 = hd1[i];
        let v2 = hd2[i];
        combined.push(
            if v1 >= v2 {
                v1
            } else {
                v2
            },
        );
    }
    proof {
        assert(combined@ =~= combined_map(actual@, expected@));
    }

    let histogram = histogram_of(&combined);

    proof {
        assert forall|i: int|
            0 <= i < combined@.len() implies #[trigger] combined@[i] <= spec_max_difference(
            histogram.0@,
        ) by {
            crate::histogram::lemma_count_of_pos(combined@, i);
            crate::histogram::lemma_max_nonzero_upto_ge(histogram.0@, 256, combined@[i] as int);
        }
    }

    let diff_image = crate::visualize::visualize(expected, &combined, &histogram);

    Difference { histogram, diff_image: Some(diff_image) }
}

/// The minimum over the first `k` neighbor differences is no larger than
/// any single one of them.
pub proof fn lemma_min_neighbor_le(
    have: ImageView,
    want: ImageView,
    x: int,
    y: int,
    k: int,
    j: int,
)
    requires
        0 <= j < k <= 9,
    ensures
        min_neighbor_diff_upto(have, want, x, y, k) <= neighbor_diff(have, want, x, y, j),
    decreases k,
{
    if k > 1 && j < k - 1 {
        lemma_min_neighbor_le(have, want, x, y, k - 1, j);
    }
}

/// Identity law: diffing an image against itself leaves the combined
/// magnitude map uniformly zero, so the histogram carries all its mass at
/// magnitude 0 and the visualization has nothing to amplify.
pub proof fn lemma_diff_identity(x: ImageView)
    requires
        x.wf(),
    ensures
        diff_bin(x, x, 0) == interior_width(x) * interior_height(x),
        forall|m: u8| m != 0 ==> diff_bin(x, x, m) == 0,
        forall|i: int| 0 <= i < combined_map(x, x).len() ==> combined_map(x, x)[i] == 0,
{
    let s = combined_map(x, x);
    assert forall|i: int| 0 <= i < s.len() implies s[i] == 0 by {
        let xi = i % interior_width(x);
        let yi = i / interior_width(x);
        let p = x.pixel(xi + 1, yi + 1);
        assert(channel_diff(p[0], p[0]) == 0);
        assert(channel_diff(p[1], p[1]) == 0);
        assert(channel_diff(p[2], p[2]) == 0);
        assert(channel_diff(p[3], p[3]) == 0);
        assert(spec_luma(0, 0, 0) == 0);
        assert(spec_pixel_diff(p, p) == 0);
        assert(neighbor_diff(x, x, xi, yi, 4) == 0);
        lemma_min_neighbor_le(x, x, xi, yi, 9, 4);
        lemma_half_diff_bounds(x, x, xi, yi, 9);
        assert(spec_half_diff_at(x, x, xi, yi) == 0);
        assert(combined_magnitude(x, x, xi, yi) == 0);
    }
    lemma_count_of_uniform(s, 0);
}

/// Symmetry of magnitude: comparing two images in either order produces
/// the same histogram, whether or not the images have the same size; only
/// the visualization depends on the order, because it renders from the
/// image in the reference role.
pub proof fn lemma_diff_symmetric(a: ImageView, e: ImageView)
    ensures
        forall|m: u8| #[trigger] diff_bin(a, e, m) == diff_bin(e, a, m),
{
    if spec_same_size(a, e) {
        assert(combined_map(a, e) =~= combined_map(e, a));
    }
}

/// Mass law: the histogram of a diff accounts for every compared position
/// exactly once. For same-size images its counters sum to the number of
/// interior positions; for mismatched sizes, to the larger pixel count.
pub proof fn lemma_diff_histogram_mass(a: ImageView, e: ImageView, h: Seq<usize>)
    requires
        h.len() == 256,
        forall|m: u8| #[trigger] h[m as int] == diff_bin(a, e, m),
    ensures
        band_sum(h, 0, 256) == if spec_same_size(a, e) {
            interior_width(e) * interior_height(e)
        } else {
            max(a.pixels.len() as int, e.pixels.len() as int)
        },
{
    if spec_same_size(a, e) {
        lemma_count_partition(h, combined_map(a, e));
    } else {
        lemma_band_sum_extend(h, 0, 255);
        lemma_band_sum_zero_iff(h, 0, 255);
        assert forall|m: int| 0 <= m < 255 implies h[m] == 0 by {
            assert(h[(m as u8) as int] == diff_bin(a, e, m as u8));
        }
        assert(h[255] == diff_bin(a, e, 255u8));
    }
}

} // verus!
