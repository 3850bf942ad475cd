use vstd::prelude::*;
use crate::antialias::{antialiased_spec, neighbor, scan};
use crate::color::{Rgba, color_delta_spec, luma};
use vstd::arithmetic::div_mod::{lemma_fundamental_div_mod, lemma_mod_pos_bound};
use crate::compare::{
    Options,
    blank,
    classify,
    color_of,
    count_diffs,
    diff_count,
    is_diff,
    max_delta,
    abs,
    rendered_pixel,
};
use crate::raster::Image;

verus! {

proof fn lemma_max_delta_grows(t1: u32, t2: u32)
    requires
        t1 <= t2,
    ensures
        0 <= max_delta(t1) <= max_delta(t2),
{
    assert(0 <= t1 * t1 <= t2 * t2) by (nonlinear_arith)
        requires
            0 <= t1 <= t2,
    ;
}

/// Counting keeps an implication between two ways of judging positions.
proof fn lemma_count_le(img1: Image, img2: Image, o1: Options, o2: Options, n: nat)
    requires
        forall|i: int| 0 <= i < n && #[trigger] is_diff(img1, img2, o2, i) ==> is_diff(img1, img2, o1, i),
    ensures
        count_diffs(img1, img2, o2, n) <= count_diffs(img1, img2, o1, n),
    decreases n,
{
    if n > 0 {
        lemma_count_le(img1, img2, o1, o2, (n - 1) as nat);
    }
}

proof fn lemma_count_zero(img1: Image, img2: Image, options: Options, n: nat)
    requires
        forall|i: int| 0 <= i < n ==> !#[trigger] is_diff(img1, img2, options, i),
    ensures
        count_diffs(img1, img2, options, n) == 0,
    decreases n,
{
    if n > 0 {
        lemma_count_zero(img1, img2, options, (n - 1) as nat);
    }
}

/// An image compared with itself has no differences, whatever the options.
pub proof fn identical_images_do_not_differ(img: Image, options: Options)
    ensures
        diff_count(img, img, options) == 0,
{
    lemma_max_delta_grows(0, options.threshold);
    lemma_count_zero(img, img, options, (img.width * img.height) as nat);
}

/// Raising the threshold never raises the count of differences.
pub proof fn threshold_is_monotone(img1: Image, img2: Image, o1: Options, o2: Options)
    requires
        o1.threshold <= o2.threshold,
        o2 == (Options { threshold: o2.threshold, ..o1 }),
    ensures
        diff_count(img1, img2, o2) <= diff_count(img1, img2, o1),
{
    lemma_max_delta_grows(o1.threshold, o2.threshold);
    assert forall|i: int| 0 <= i < img1.width * img1.height && #[trigger] is_diff(img1, img2, o2, i)
        implies is_diff(img1, img2, o1, i) by {}
    lemma_count_le(img1, img2, o1, o2, (img1.width * img1.height) as nat);
}

/// Turning the anti-aliasing detection off never lowers the count of
/// differences.
pub proof fn including_antialiasing_counts_more(img1: Image, img2: Image, o1: Options, o2: Options)
    requires
        !o1.include_aa,
        o2 == (Options { include_aa: true, ..o1 }),
    ensures
        diff_count(img1, img2, o1) <= diff_count(img1, img2, o2),
{
    assert forall|i: int| 0 <= i < img1.width * img1.height && #[trigger] is_diff(img1, img2, o1, i)
        implies is_diff(img1, img2, o2, i) by {}
    lemma_count_le(img1, img2, o2, o1, (img1.width * img1.height) as nat);
}

/// In a mask only genuine differences are drawn: every other position
/// keeps the blank of a fresh raster.
pub proof fn mask_draws_only_differences(img1: Image, img2: Image, options: Options, x: int, y: int)
    requires
        options.diff_mask,
        !(classify(img1, img2, options, x, y) is Different),
    ensures
        rendered_pixel(img1, img2, options, x, y) == blank(),
{
}

/// A genuine difference takes the alternative colour, where one is set,
/// exactly when the pixel of the first image is the darker one.
pub proof fn difference_color_marks_darker_first_image(
    img1: Image,
    img2: Image,
    options: Options,
    x: int,
    y: int,
)
    requires
        classify(img1, img2, options, x, y) is Different,
    ensures
        rendered_pixel(img1, img2, options, x, y) == if options.diff_color_alt is Some && luma(
            img1.pixel(x, y),
        ) < luma(img2.pixel(x, y)) {
            color_of(options.diff_color_alt.unwrap())
        } else {
            color_of(options.diff_color)
        },
{
}

/// The set of row-major indices of the genuine differences among the first
/// `n` positions.
pub open spec fn diff_positions(img1: Image, img2: Image, options: Options, n: int) -> Set<int> {
    Set::new(|i: int| 0 <= i < n && is_diff(img1, img2, options, i))
}

proof fn lemma_count_is_size(img1: Image, img2: Image, options: Options, n: nat)
    ensures
        diff_positions(img1, img2, options, n as int).finite(),
        count_diffs(img1, img2, options, n) == diff_positions(img1, img2, options, n as int).len(),
    decreases n,
{
    if n == 0 {
        assert(diff_positions(img1, img2, options, 0) =~= Set::<int>::empty());
    } else {
        lemma_count_is_size(img1, img2, options, (n - 1) as nat);
        let before = diff_positions(img1, img2, options, n - 1);
        if is_diff(img1, img2, options, n - 1) {
            assert(diff_positions(img1, img2, options, n as int) =~= before.insert(n - 1));
        } else {
            assert(diff_positions(img1, img2, options, n as int) =~= before);
        }
    }
}

/// The count of differences is the size of the set of positions that
/// differ: it does not depend on the order in which positions are visited.
pub proof fn count_is_independent_of_order(img1: Image, img2: Image, options: Options)
    ensures
        diff_positions(img1, img2, options, img1.width * img1.height).finite(),
        diff_count(img1, img2, options) == diff_positions(
            img1,
            img2,
            options,
            img1.width * img1.height,
        ).len(),
{
    lemma_count_is_size(img1, img2, options, (img1.width * img1.height) as nat);
}

/// Every pixel of `img` has colour `b`.
pub open spec fn uniform(img: Image, b: Rgba) -> bool {
    forall|x: int, y: int|
        0 <= x < img.width && 0 <= y < img.height ==> #[trigger] img.pixel(x, y) == b
}

/// Every pixel of `img` has colour `b` or `c`.
pub open spec fn two_colored(img: Image, b: Rgba, c: Rgba) -> bool {
    forall|x: int, y: int|
        0 <= x < img.width && 0 <= y < img.height ==> #[trigger] img.pixel(x, y) == b
            || img.pixel(x, y) == c
}

/// `(x, y)` lies in the rectangle `[x0, x1) x [y0, y1)`.
pub open spec fn in_rect(x: int, y: int, x0: int, y0: int, x1: int, y1: int) -> bool {
    x0 <= x < x1 && y0 <= y < y1
}

proof fn lemma_neighbor_in_bounds(img: Image, x: int, y: int, k: int)
    requires
        0 <= x < img.width,
        0 <= y < img.height,
    ensures
        0 <= neighbor(img, x, y, k).0 < img.width,
        0 <= neighbor(img, x, y, k).1 < img.height,
{
}

proof fn lemma_uniform_scan(img: Image, b: Rgba, x: int, y: int, k: nat)
    requires
        uniform(img, b),
        0 <= x < img.width,
        0 <= y < img.height,
    ensures
        scan(img, x, y, k).zeroes == k,
    decreases k,
{
    if k > 0 {
        lemma_uniform_scan(img, b, x, y, (k - 1) as nat);
        lemma_neighbor_in_bounds(img, x, y, k - 1);
    }
}

/// In an image of one colour no pixel looks like anti-aliasing.
proof fn lemma_uniform_not_antialiased(img1: Image, img2: Image, b: Rgba, x: int, y: int)
    requires
        uniform(img1, b),
        0 <= x < img1.width,
        0 <= y < img1.height,
    ensures
        !antialiased_spec(img1, img2, x, y),
{
    reveal(antialiased_spec);
    lemma_uniform_scan(img1, b, x, y, 8);
}

proof fn lemma_two_colored_scan(img: Image, other: Rgba, x: int, y: int, k: nat)
    requires
        two_colored(img, img.pixel(x, y), other),
        0 <= x < img.width,
        0 <= y < img.height,
    ensures
        luma(img.pixel(x, y)) - luma(other) >= 0 ==> scan(img, x, y, k).min == 0,
        luma(img.pixel(x, y)) - luma(other) <= 0 ==> scan(img, x, y, k).max == 0,
    decreases k,
{
    if k > 0 {
        lemma_two_colored_scan(img, other, x, y, (k - 1) as nat);
        lemma_neighbor_in_bounds(img, x, y, k - 1);
    }
}

/// In an image of two colours no pixel looks like anti-aliasing: its
/// neighbours are all brighter than it, or all darker, or of its brightness.
proof fn lemma_two_colored_not_antialiased(img1: Image, img2: Image, b: Rgba, c: Rgba, x: int, y: int)
    requires
        two_colored(img1, b, c),
        0 <= x < img1.width,
        0 <= y < img1.height,
    ensures
        !antialiased_spec(img1, img2, x, y),
{
    reveal(antialiased_spec);
    let center = img1.pixel(x, y);
    let other = if center == b {
        c
    } else {
        b
    };
    assert(two_colored(img1, center, other));
    lemma_two_colored_scan(img1, other, x, y, 8);
}

proof fn lemma_coordinates(i: int, w: int, h: int)
    requires
        0 <= i < w * h,
        0 <= w,
        0 <= h,
    ensures
        w > 0,
        0 <= i % w < w,
        0 <= i / w < h,
{
    assert(w > 0) by (nonlinear_arith)
        requires
            0 <= i < w * h,
            0 <= w,
            0 <= h,
    ;
    lemma_fundamental_div_mod(i, w);
    lemma_mod_pos_bound(i, w);
    assert(0 <= i / w < h) by (nonlinear_arith)
        requires
            i == w * (i / w) + i % w,
            0 <= i % w < w,
            0 <= i < w * h,
    ;
}

/// Two images that differ only by a solid rectangle over a flat background,
/// by more than the threshold, differ in exactly the positions of the
/// rectangle, with or without the anti-aliasing detection.
pub proof fn flat_rectangle_counts_its_pixels(
    img1: Image,
    img2: Image,
    options: Options,
    b: Rgba,
    c: Rgba,
    x0: int,
    y0: int,
    x1: int,
    y1: int,
)
    requires
        img1.width == img2.width,
        img1.height == img2.height,
        uniform(img1, b),
        forall|x: int, y: int|
            0 <= x < img2.width && 0 <= y < img2.height ==> #[trigger] img2.pixel(x, y) == if in_rect(
                x,
                y,
                x0,
                y0,
                x1,
                y1,
            ) {
                c
            } else {
                b
            },
        abs(color_delta_spec(b, c, false)) > max_delta(options.threshold),
    ensures
        diff_count(img1, img2, options) == Set::new(
            |i: int|
                0 <= i < img1.width * img1.height && in_rect(
                    i % (img1.width as int),
                    i / (img1.width as int),
                    x0,
                    y0,
                    x1,
                    y1,
                ),
        ).len(),
{
    let w = img1.width as int;
    let h = img1.height as int;
    lemma_max_delta_grows(0, options.threshold);
    assert(two_colored(img2, b, c));
    assert forall|i: int| 0 <= i < w * h implies #[trigger] is_diff(img1, img2, options, i) == in_rect(
        i % w,
        i / w,
        x0,
        y0,
        x1,
        y1,
    ) by {
        lemma_coordinates(i, w, h);
        lemma_uniform_not_antialiased(img1, img2, b, i % w, i / w);
        lemma_two_colored_not_antialiased(img2, img1, b, c, i % w, i / w);
    }
    count_is_independent_of_order(img1, img2, options);
    assert(diff_positions(img1, img2, options, w * h) =~= Set::new(
        |i: int| 0 <= i < w * h && in_rect(i % w, i / w, x0, y0, x1, y1),
    ));
}

} // verus!
