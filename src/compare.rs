use vstd::prelude::*;
use crate::antialias::{antialiased, antialiased_spec};
use crate::color::{Rgba, color_delta, color_delta_spec, luma, luma_of};
use crate::raster::Image;
use vstd::arithmetic::div_mod::lemma_fundamental_div_mod_converse;

verus! {

/// Settings of one comparison. `threshold` and `alpha` are fractions in
/// millionths: `100_000` stands for `0.1`.
pub struct Options {
    /// matching threshold (0 to 1_000_000); smaller is more sensitive
    pub threshold: u32,
    /// whether to skip anti-aliasing detection
    pub include_aa: bool,
    /// opacity of original image in diff output (0 to 1_000_000)
    pub alpha: u32,
    /// color of anti-aliased pixels in diff output
    pub aa_color: [u8; 4],
    /// color of different pixels in diff output
    pub diff_color: [u8; 4],
    /// color of different pixels where the first image is the darker one
    pub diff_color_alt: Option<[u8; 4]>,
    /// draw the diff over a transparent background (a mask)
    pub diff_mask: bool,
}

pub open spec fn default_options() -> Options {
    Options {
        threshold: 100_000,
        include_aa: false,
        alpha: 100_000,
        aa_color: [255u8, 255u8, 0u8, 255u8],
        diff_color: [255u8, 0u8, 0u8, 255u8],
        diff_color_alt: None,
        diff_mask: false,
    }
}

impl Default for Options {
    fn default() -> (r: Self)
        ensures
            r == default_options(),
    {
        Options {
            threshold: 100_000,
            include_aa: false,
            alpha: 100_000,
            aa_color: [255u8, 255u8, 0u8, 255u8],
            diff_color: [255u8, 0u8, 0u8, 255u8],
            diff_color_alt: None,
            diff_mask: false,
        }
    }
}

/// Why a comparison was refused.
#[derive(Clone, Copy, PartialEq, Eq, Structural, Debug)]
pub enum PixelmatchError {
    /// The two images differ in width, height or byte length.
    SizesDoNotMatch,
    /// The byte length disagrees with the dimensions, or the dimensions
    /// disagree with the ones the caller expected.
    DataSizeMismatch,
    /// The bytes are not a PNG image.
    Decode,
    /// The image could not be encoded as PNG.
    Encode,
}

impl PixelmatchError {
    pub open spec fn message_spec(self) -> Seq<char> {
        match self {
            PixelmatchError::SizesDoNotMatch => "Image sizes do not match"@,
            PixelmatchError::DataSizeMismatch => "Image data size does not match width/height"@,
            PixelmatchError::Decode => "Image could not be decoded"@,
            PixelmatchError::Encode => "Image could not be encoded"@,
        }
    }

    /// A sentence that describes the error.
    pub fn message(&self) -> (r: String)
        ensures
            r@ == self.message_spec(),
    {
        match self {
            PixelmatchError::SizesDoNotMatch => "Image sizes do not match".to_owned(),
            PixelmatchError::DataSizeMismatch => "Image data size does not match width/height".to_owned(),
            PixelmatchError::Decode => "Image could not be decoded".to_owned(),
            PixelmatchError::Encode => "Image could not be encoded".to_owned(),
        }
    }
}

/// How one pixel position is judged.
#[derive(Clone, Copy, PartialEq, Eq, Structural, Debug)]
pub enum PixelClass {
    Match,
    Antialiased,
    Different,
}

pub open spec fn color_of(c: [u8; 4]) -> Rgba {
    Rgba { r: c@[0], g: c@[1], b: c@[2], a: c@[3] }
}

/// The threshold in the units of `color_delta_spec`: `35215 * t^2`.
pub open spec fn max_delta(threshold: u32) -> int {
    228_985_537_500_000_000 * (threshold * threshold)
}

pub open spec fn abs(v: int) -> int {
    if v < 0 {
        -v
    } else {
        v
    }
}

pub open spec fn classify(img1: Image, img2: Image, options: Options, x: int, y: int) -> PixelClass {
    let delta = color_delta_spec(img1.pixel(x, y), img2.pixel(x, y), false);
    if abs(delta) <= max_delta(options.threshold) {
        PixelClass::Match
    } else if !options.include_aa && (antialiased_spec(img1, img2, x, y) || antialiased_spec(
        img2,
        img1,
        x,
        y,
    )) {
        PixelClass::Antialiased
    } else {
        PixelClass::Different
    }
}

/// Whether the pixel with row-major index `i` is a genuine difference.
pub open spec fn is_diff(img1: Image, img2: Image, options: Options, i: int) -> bool {
    classify(img1, img2, options, i % (img1.width as int), i / (img1.width as int))
        is Different
}

/// Genuine differences among the first `n` pixels in row-major order.
pub open spec fn count_diffs(img1: Image, img2: Image, options: Options, n: nat) -> nat
    decreases n,
{
    if n == 0 {
        0
    } else {
        count_diffs(img1, img2, options, (n - 1) as nat) + if is_diff(
            img1,
            img2,
            options,
            n - 1,
        ) {
            1nat
        } else {
            0nat
        }
    }
}

/// Genuine differences over the whole raster.
pub open spec fn diff_count(img1: Image, img2: Image, options: Options) -> nat {
    count_diffs(img1, img2, options, (img1.width * img1.height) as nat)
}

/// The background gray: the luma of `p` composited over white with
/// opacity `alpha * p.a / 255`, truncated to `0..=255`.
pub open spec fn gray_value(p: Rgba, alpha: u32) -> u8 {
    let den = 25_500_000_000_000_000int;
    let num = 255 * den + (luma_of(p.r as int, p.g as int, p.b as int) - 25_500_000_000) * (
    alpha * p.a);
    if num <= 0 {
        0
    } else if num / den > 255 {
        255
    } else {
        (num / den) as u8
    }
}

pub open spec fn gray(p: Rgba, alpha: u32) -> Rgba {
    let v = gray_value(p, alpha);
    Rgba { r: v, g: v, b: v, a: v }
}

/// The transparent black of a fresh output raster.
pub open spec fn blank() -> Rgba {
    Rgba { r: 0, g: 0, b: 0, a: 0 }
}

/// The colour of a genuine difference: the alternative colour, where one is
/// set and the pixel of the first image is the darker one, else `diff_color`.
pub open spec fn diff_color_for(img1: Image, img2: Image, options: Options, x: int, y: int) -> Rgba {
    if options.diff_color_alt is Some && luma(img1.pixel(x, y)) < luma(img2.pixel(x, y)) {
        color_of(options.diff_color_alt.unwrap())
    } else {
        color_of(options.diff_color)
    }
}

/// The pixel that the rendered diff holds at `(x, y)`.
pub open spec fn rendered_pixel(img1: Image, img2: Image, options: Options, x: int, y: int) -> Rgba {
    match classify(img1, img2, options, x, y) {
        PixelClass::Match => if options.diff_mask {
            blank()
        } else {
            gray(img1.pixel(x, y), options.alpha)
        },
        PixelClass::Antialiased => if options.diff_mask {
            blank()
        } else {
            color_of(options.aa_color)
        },
        PixelClass::Different => diff_color_for(img1, img2, options, x, y),
    }
}

/// `out` is the rendered diff of the two images.
pub open spec fn is_rendering(out: Image, img1: Image, img2: Image, options: Options) -> bool {
    &&& out.width == img1.width
    &&& out.height == img1.height
    &&& out.wf()
    &&& forall|x: int, y: int|
        0 <= x < img1.width && 0 <= y < img1.height ==> #[trigger] out.pixel(x, y)
            == rendered_pixel(img1, img2, options, x, y)
}

pub open spec fn sizes_differ(img1: Image, img2: Image) -> bool {
    img1.width != img2.width || img1.height != img2.height || img1.data@.len()
        != img2.data@.len()
}

pub open spec fn data_size_wrong(img1: Image, width: Option<u32>, height: Option<u32>) -> bool {
    !img1.wf() || (width is Some && height is Some && (width.unwrap() != img1.width
        || height.unwrap() != img1.height))
}

pub open spec fn options_or_default(options: Option<Options>) -> Options {
    match options {
        Some(o) => o,
        None => default_options(),
    }
}

fn to_rgba(c: [u8; 4]) -> (r: Rgba)
    ensures
        r == color_of(c),
{
    Rgba { r: c[0], g: c[1], b: c[2], a: c[3] }
}

/// The threshold in the units of `color_delta`.
fn max_delta_of(threshold: u32) -> (r: i128)
    ensures
        r == max_delta(threshold),
{
    let t = threshold as i128;
    proof {
        assert(0 <= t * t <= 4294967295 * 4294967295) by (nonlinear_arith)
            requires
                0 <= t <= 4294967295,
        ;
    }
    228_985_537_500_000_000 * (t * t)
}

/// The background pixel for a matching position (see `gray`).
fn gray_pixel(p: Rgba, alpha: u32) -> (r: Rgba)
    ensures
        r == gray(p, alpha),
{
    let den: i128 = 25_500_000_000_000_000;
    let y: i128 = 29889531 * (p.r as i128) + 58662247 * (p.g as i128) + 11448223 * (p.b as i128);
    proof {
        assert(0 <= alpha * p.a <= 4294967295 * 255) by (nonlinear_arith)
            requires
                0 <= alpha <= 4294967295,
                0 <= p.a <= 255,
        ;
    }
    let f: i128 = (alpha as i128) * (p.a as i128);
    proof {
        assert(-25_500_000_000 * (4294967295 * 255) <= (y - 25_500_000_000) * f <= 255 * (
        4294967295 * 255)) by (nonlinear_arith)
            requires
                -25_500_000_000 <= y - 25_500_000_000 <= 255,
                0 <= f <= 4294967295 * 255,
        ;
    }
    let num: i128 = 255 * den + (y - 25_500_000_000) * f;
    let v: u8 = if num <= 0 {
        0
    } else if num / den > 255 {
        255
    } else {
        (num / den) as u8
    };
    Rgba { r: v, g: v, b: v, a: v }
}

/// Judges the position `(x, y)`; `max` is `max_delta(options.threshold)`.
fn classify_pixel(img1: &Image, img2: &Image, options: &Options, max: i128, x: u32, y: u32) -> (r: PixelClass)
    requires
        img1.wf(),
        img2.wf(),
        img1.width == img2.width,
        img1.height == img2.height,
        x < img1.width,
        y < img1.height,
        max == max_delta(options.threshold),
    ensures
        r == classify(*img1, *img2, *options, x as int, y as int),
{
    let delta = color_delta(img1.get_pixel(x, y), img2.get_pixel(x, y), false);
    let magnitude = if delta < 0 {
        -delta
    } else {
        delta
    };
    if magnitude <= max {
        PixelClass::Match
    } else if !options.include_aa && (antialiased(img1, x, y, img2) || antialiased(img2, x, y, img1)) {
        PixelClass::Antialiased
    } else {
        PixelClass::Different
    }
}

/// Whether the two byte sequences are equal.
fn same_bytes(a: &Vec<u8>, b: &Vec<u8>) -> (r: bool)
    requires
        a@.len() == b@.len(),
    ensures
        r == (a@ == b@),
{
    let mut k: usize = 0;
    while k < a.len()
        invariant
            a@.len() == b@.len(),
            k <= a@.len(),
            forall|j: int| 0 <= j < k ==> a@[j] == b@[j],
        decreases a@.len() - k,
    {
        if a[k] != b[k] {
            return false;
        }
        k = k + 1;
    }
    assert(a@ =~= b@);
    true
}

proof fn lemma_row_major(w: int, h: int, x: int, y: int)
    requires
        0 <= x < w,
        0 <= y,
    ensures
        (y * w + x) % w == x,
        (y * w + x) / w == y,
        y < h <==> y * w + x < w * h,
        y * w + x == w * h ==> y == h && x == 0,
        (y + 1) * w == y * w + w,
{
    assert((y + 1) * w == y * w + w) by (nonlinear_arith);
    lemma_fundamental_div_mod_converse(y * w + x, w, y, x);
    if y < h {
        assert(y * w + x < w * h) by (nonlinear_arith)
            requires
                0 <= x < w,
                0 <= y < h,
        ;
    } else {
        assert(y * w + x >= w * h) by (nonlinear_arith)
            requires
                0 <= x < w,
                y >= h,
        ;
        if y > h {
            assert(y * w >= h * w + w) by (nonlinear_arith)
                requires
                    y > h,
                    0 <= w,
            ;
        }
    }
}

/// Compares two images of equal size: counts the positions that differ
/// genuinely and, where `output` is given, replaces it by the rendered diff.
pub fn pixelmatch(
    img1: &Image,
    img2: &Image,
    output: Option<&mut Image>,
    width: Option<u32>,
    height: Option<u32>,
    options: Option<Options>,
) -> (r: Result<usize, PixelmatchError>)
    ensures
        sizes_differ(*img1, *img2) ==> r == Err::<usize, PixelmatchError>(
            PixelmatchError::SizesDoNotMatch,
        ),
        !sizes_differ(*img1, *img2) && data_size_wrong(*img1, width, height) ==> r == Err::<
            usize,
            PixelmatchError,
        >(PixelmatchError::DataSizeMismatch),
        !sizes_differ(*img1, *img2) && !data_size_wrong(*img1, width, height) ==> r is Ok
            && r.unwrap() == diff_count(*img1, *img2, options_or_default(options)),
        output is Some && r is Ok ==> is_rendering(
            *final(output.unwrap()),
            *img1,
            *img2,
            options_or_default(options),
        ),
        output is Some && r is Err ==> *final(output.unwrap()) == *output.unwrap(),
{
    if img1.width != img2.width || img1.height != img2.height || img1.data.len() != img2.data.len() {
        return Err(PixelmatchError::SizesDoNotMatch);
    }
    let w = img1.width;
    let h = img1.height;
    proof {
        assert(0 <= w * h <= 4294967295 * 4294967295) by (nonlinear_arith)
            requires
                0 <= w <= 4294967295,
                0 <= h <= 4294967295,
        ;
    }
    if img1.data.len() as u128 != 4 * ((w as u128) * (h as u128)) {
        return Err(PixelmatchError::DataSizeMismatch);
    }
    if let (Some(ew), Some(eh)) = (width, height) {
        if ew != w || eh != h {
            return Err(PixelmatchError::DataSizeMismatch);
        }
    }
    let options = match options {
        Some(o) => o,
        None => Options::default(),
    };
    let ghost opts = options;
    proof {
        assert(0 <= w * h) by (nonlinear_arith);
    }
    let n: usize = w as usize * h as usize;
    let identical = same_bytes(&img1.data, &img2.data);
    let max = max_delta_of(options.threshold);
    let render = output.is_some();
    let mut canvas = if render {
        Image::new(w, h)
    } else {
        Image::new(0, 0)
    };
    proof {
        assert(n > 0 ==> w > 0) by (nonlinear_arith)
            requires
                n == w * h,
        ;
        assert(n == 0 ==> w == 0 || h == 0) by (nonlinear_arith)
            requires
                n == w * h,
        ;
    }
    let mut diff: usize = 0;
    let mut i: usize = 0;
    let mut x: u32 = 0;
    let mut y: u32 = 0;
    while i < n
        invariant
            img1.wf(),
            img2.wf(),
            !sizes_differ(*img1, *img2),
            w == img1.width,
            h == img1.height,
            n == w * h,
            max == max_delta(opts.threshold),
            options == opts,
            identical == (img1.data@ == img2.data@),
            i == y * w + x,
            i <= n,
            i < n ==> x < w,
            i == n ==> (x == 0 && y == h) || w == 0 || h == 0,
            diff == count_diffs(*img1, *img2, opts, i as nat),
            diff <= i,
            render ==> canvas.width == w && canvas.height == h && canvas.wf(),
            render ==> forall|x2: int, y2: int|
                0 <= x2 < w && 0 <= y2 < h ==> #[trigger] canvas.pixel(x2, y2) == if y2 < y || (y2
                    == y && x2 < x) {
                    rendered_pixel(*img1, *img2, opts, x2, y2)
                } else {
                    blank()
                },
        decreases n - i,
    {
        proof {
            lemma_row_major(w as int, h as int, x as int, y as int);
        }
        let class = if identical {
            PixelClass::Match
        } else {
            classify_pixel(img1, img2, &options, max, x, y)
        };
        assert(class == classify(*img1, *img2, opts, x as int, y as int));
        if class == PixelClass::Different {
            diff = diff + 1;
        }
        if render {
            match class {
                PixelClass::Match => {
                    if !options.diff_mask {
                        canvas.put_pixel(x, y, gray_pixel(img1.get_pixel(x, y), options.alpha));
                    }
                },
                PixelClass::Antialiased => {
                    if !options.diff_mask {
                        canvas.put_pixel(x, y, to_rgba(options.aa_color));
                    }
                },
                PixelClass::Different => {
                    let darker = color_delta(img1.get_pixel(x, y), img2.get_pixel(x, y), true) < 0;
                    let color = if darker {
                        match options.diff_color_alt {
                            Some(c) => c,
                            None => options.diff_color,
                        }
                    } else {
                        options.diff_color
                    };
                    canvas.put_pixel(x, y, to_rgba(color));
                },
            }
        }
        i = i + 1;
        x = x + 1;
        if x == w {
            proof {
                lemma_row_major(w as int, h as int, 0, y as int);
            }
            x = 0;
            y = y + 1;
        }
        proof {
            lemma_row_major(w as int, h as int, x as int, y as int);
        }
    }
    if let Some(out) = output {
        *out = canvas;
    }
    Ok(diff)
}

} // verus!
