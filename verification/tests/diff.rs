use rendiff::{diff, half_diff, luma_to_rgba, pixel_diff, rgba_to_luma};
use rendiff::{Difference, Histogram, Image, RgbaPixel, Threshold};

/// Builds an image of the given dimensions from a per-position function.
fn from_fn(width: usize, height: usize, mut f: impl FnMut(usize, usize) -> RgbaPixel) -> Image {
    let mut pixels = Vec::new();
    for y in 0..height {
        for x in 0..width {
            pixels.push(f(x, y));
        }
    }
    Image::new(pixels, width, height)
}

/// Surrounds the given image with a one-pixel border of `border_value`.
fn add_border(border_value: RgbaPixel, image: &Image) -> Image {
    let width = image.width();
    let height = image.height();
    from_fn(width + 2, height + 2, |x, y| {
        if (1..=width).contains(&x) && (1..=height).contains(&y) {
            image.pixel(x - 1, y - 1)
        } else {
            border_value
        }
    })
}

/// Runs `diff()` against two images defined as vectors, with an added
/// border.
fn diff_vecs(
    (width, height): (usize, usize),
    actual_data: Vec<RgbaPixel>,
    expected_data: Vec<RgbaPixel>,
    border_value: RgbaPixel,
) -> Difference {
    let expected = add_border(border_value, &Image::new(expected_data, width, height));
    let actual = add_border(border_value, &Image::new(actual_data, width, height));
    diff(&actual, &expected)
}

#[test]
fn simple_equality() {
    let image = Image::new(
        [0, 255, 128, 0, 255, 12, 255, 13, 99].map(luma_to_rgba).to_vec(),
        3,
        3,
    );
    let diff_result = diff(&image, &image);

    let mut expected_histogram = [0; 256];
    expected_histogram[0] = 1;
    assert_eq!(diff_result.histogram, Histogram(expected_histogram));

    assert!(Threshold::no_bigger_than(0).allows(diff_result.histogram));
    assert!(Threshold::no_bigger_than(5).allows(diff_result.histogram));
    assert!(Threshold::no_bigger_than(254).allows(diff_result.histogram));
}

#[test]
fn simple_inequality_thoroughly_examined() {
    let base_pixel_value = 100u8;
    let delta = 55u8;
    let dred = 11; // delta scaled down by being on red channel of the test image only
    let display_scale = 3; // input image is divided by this when put in diff image

    let mut expected_histogram = [0; 256];
    expected_histogram[usize::from(dred)] = 1;

    // Try both orders; result should be symmetric except for the diff image
    let result_of_negative_difference = diff_vecs(
        (1, 1),
        vec![[base_pixel_value, base_pixel_value, base_pixel_value, 255]],
        vec![[
            base_pixel_value + delta,
            base_pixel_value,
            base_pixel_value,
            255,
        ]],
        [base_pixel_value, base_pixel_value, base_pixel_value, 255],
    );
    let result_of_positive_difference = diff_vecs(
        (1, 1),
        vec![[
            base_pixel_value + delta,
            base_pixel_value,
            base_pixel_value,
            255,
        ]],
        vec![[base_pixel_value, base_pixel_value, base_pixel_value, 255]],
        [base_pixel_value, base_pixel_value, base_pixel_value, 255],
    );

    // Note that the diff image is constructed using the expected image, not actual.
    assert_eq!(
        result_of_positive_difference,
        Difference {
            histogram: Histogram(expected_histogram),
            diff_image: Some(Image::new(
                vec![[(base_pixel_value) / display_scale, 255, 255, 255]],
                1,
                1,
            ))
        }
    );
    assert_eq!(
        result_of_negative_difference,
        Difference {
            histogram: Histogram(expected_histogram),
            diff_image: Some(Image::new(
                vec![[(base_pixel_value + dred) / display_scale, 255, 255, 255]],
                1,
                1,
            ))
        }
    );

    assert_eq!(
        (
            Threshold::no_bigger_than(dred - 1).allows(result_of_positive_difference.histogram),
            Threshold::no_bigger_than(dred).allows(result_of_positive_difference.histogram),
        ),
        (false, true)
    );
}

/// Test that the diff image is 2 pixels smaller, as expected.
#[test]
fn diff_image_size() {
    let image1 = from_fn(10, 10, |_, _| [1, 2, 3, 255]);
    let image2 = from_fn(10, 10, |_, _| [100, 200, 255, 255]);
    let diff_result = diff(&image1, &image2);

    let diff_image = diff_result.diff_image.unwrap();
    assert_eq!((diff_image.width(), diff_image.height()), (8, 8));
}

#[test]
fn mismatched_sizes() {
    let expected = Image::new(vec![[0, 0, 0, 255u8]], 1, 1);
    let actual = Image::new(vec![[0, 0, 0, 255], [0, 0, 0, 255u8]], 1, 2);
    assert_eq!(
        diff(&actual, &expected),
        Difference {
            histogram: {
                let mut h = [0; 256];
                h[255] = 2;
                Histogram(h)
            },
            diff_image: None
        }
    );
}

#[test]
fn histogram_is_symmetric() {
    // The histogram must not depend on the argument order, though the
    // visualization may.
    let a = from_fn(6, 5, |x, y| luma_to_rgba((x * 40 + y * 7) as u8));
    let b = from_fn(6, 5, |x, y| luma_to_rgba((x * 35 + y * 11 + 3) as u8));
    assert_eq!(diff(&a, &b).histogram, diff(&b, &a).histogram);

    // Also across the size-mismatch path.
    let c = from_fn(4, 4, |_, _| [0, 0, 0, 255]);
    assert_eq!(diff(&a, &c).histogram, diff(&c, &a).histogram);
}

#[test]
fn directional_asymmetry_regression() {
    // A single-pixel-wide feature of one image that has no matching color
    // anywhere in the other image can hide from a one-directional scan,
    // but not from the combined result.
    let black = [0, 0, 0, 255];
    let white = [255, 255, 255, 255];
    let with_feature = from_fn(5, 5, |x, y| if (x, y) == (2, 2) { white } else { black });
    let without_feature = from_fn(5, 5, |_, _| black);

    // The scan that checks `without_feature`'s colors against
    // `with_feature`'s neighborhoods sees nothing: black appears in every
    // neighborhood.
    assert_eq!(half_diff(&without_feature, &with_feature), vec![0; 9]);

    // The combined diff still flags the vanished feature at full magnitude.
    let difference = diff(&with_feature, &without_feature);
    assert_eq!(difference.histogram.0[255], 1);
    assert_eq!(difference.histogram.0[0], 8);
    assert!(!Threshold::no_bigger_than(254).allows(difference.histogram));
}

#[test]
fn pixel_diff_values() {
    // Red-channel difference of 55 collapses to luma 11.
    assert_eq!(
        pixel_diff([155, 100, 100, 255], [100, 100, 100, 255]),
        11
    );
    // An alpha difference larger than the color difference wins.
    assert_eq!(pixel_diff([0, 0, 0, 0], [0, 0, 0, 200]), 200);
    // Identical pixels have no difference.
    assert_eq!(pixel_diff([12, 34, 56, 78], [12, 34, 56, 78]), 0);
    // Opposite extremes saturate.
    assert_eq!(pixel_diff([255, 255, 255, 255], [0, 0, 0, 255]), 255);
}

#[test]
fn rgba_to_luma_values() {
    assert_eq!(rgba_to_luma([255, 255, 255, 0]), 255);
    assert_eq!(rgba_to_luma([0, 0, 0, 255]), 0);
    // (2126 * 55) / 10000 == 11
    assert_eq!(rgba_to_luma([55, 0, 0, 255]), 11);
    // (7152 * 100) / 10000 == 71
    assert_eq!(rgba_to_luma([0, 100, 0, 255]), 71);
}

#[test]
fn luma_to_rgba_values() {
    assert_eq!(luma_to_rgba(0), [0, 0, 0, 255]);
    assert_eq!(luma_to_rgba(99), [99, 99, 99, 255]);
}

#[test]
fn image_accessors() {
    let image = Image::new(vec![[1, 2, 3, 4], [5, 6, 7, 8]], 2, 1);
    assert_eq!((image.width(), image.height()), (2, 1));
    assert_eq!(image.pixel_count(), 2);
    assert_eq!(image.pixel(0, 0), [1, 2, 3, 4]);
    assert_eq!(image.pixel(1, 0), [5, 6, 7, 8]);
}

#[test]
fn degenerate_interior() {
    // Images of two pixels or fewer per side have no interior ring to
    // compare: same-size inputs still produce a visualization, but it is
    // empty, and the histogram records no compared position at all.
    let tiny = Image::new(vec![[1, 2, 3, 255]], 1, 1);
    let result = diff(&tiny, &tiny);
    assert_eq!(result.histogram, Histogram([0; 256]));
    let vis = result.diff_image.unwrap();
    assert_eq!((vis.width(), vis.height()), (0, 0));

    let two = from_fn(2, 2, |_, _| [9, 9, 9, 255]);
    let result2 = diff(&two, &two);
    assert_eq!(result2.histogram, Histogram([0; 256]));
    let vis2 = result2.diff_image.unwrap();
    assert_eq!((vis2.width(), vis2.height()), (0, 0));

    // A single-row image keeps its width in the visualization but has no
    // rows to fill it with.
    let row = from_fn(5, 1, |x, _| luma_to_rgba(x as u8));
    let result3 = diff(&row, &row);
    assert_eq!(result3.histogram, Histogram([0; 256]));
    let vis3 = result3.diff_image.unwrap();
    assert_eq!((vis3.width(), vis3.height()), (3, 0));
}

#[test]
fn identity_visualization_amplifies_nothing() {
    // diff(X, X): every visualization pixel holds a dimmed luma in red,
    // zero in the amplified channels, and full opacity.
    let image = from_fn(4, 4, |x, y| luma_to_rgba((x * 60 + y * 3) as u8));
    let difference = diff(&image, &image);
    let vis = difference.diff_image.unwrap();
    for y in 0..vis.height() {
        for x in 0..vis.width() {
            let p = vis.pixel(x, y);
            let expected_red = rgba_to_luma(image.pixel(x + 1, y + 1)) / 3;
            assert_eq!(p, [expected_red, 0, 0, 255]);
        }
    }
}
