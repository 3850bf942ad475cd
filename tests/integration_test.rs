use pixelmatch::color::{color_delta, Rgba};
use pixelmatch::compare::{pixelmatch, Options, PixelmatchError};
use pixelmatch::png::{decode_png, encode_png, pixelmatch_png};
use pixelmatch::raster::Image;

const WHITE: Rgba = Rgba { r: 255, g: 255, b: 255, a: 255 };
const BLACK: Rgba = Rgba { r: 0, g: 0, b: 0, a: 255 };
const GRAY: Rgba = Rgba { r: 128, g: 128, b: 128, a: 255 };
const RED: Rgba = Rgba { r: 255, g: 0, b: 0, a: 255 };

fn filled(width: u32, height: u32, c: Rgba) -> Image {
    let mut data = Vec::new();
    for _ in 0..(width * height) {
        data.extend_from_slice(&[c.r, c.g, c.b, c.a]);
    }
    Image { width, height, data }
}

fn set(img: &mut Image, x: u32, y: u32, c: Rgba) {
    let k = 4 * (y * img.width + x) as usize;
    img.data[k..k + 4].copy_from_slice(&[c.r, c.g, c.b, c.a]);
}

fn pixel(img: &Image, x: u32, y: u32) -> [u8; 4] {
    let k = 4 * (y * img.width + x) as usize;
    [img.data[k], img.data[k + 1], img.data[k + 2], img.data[k + 3]]
}

/// An 8x8 white image and a copy with a 3x3 red square.
fn flat_square() -> (Image, Image) {
    let img1 = filled(8, 8, WHITE);
    let mut img2 = filled(8, 8, WHITE);
    for y in 2..5 {
        for x in 2..5 {
            set(&mut img2, x, y, RED);
        }
    }
    (img1, img2)
}

/// A 5x5 edge: black, black, gray, white, white; and a copy whose gray
/// column is black.
fn soft_edge() -> (Image, Image) {
    let mut img1 = filled(5, 5, WHITE);
    let mut img2 = filled(5, 5, WHITE);
    for y in 0..5 {
        for x in 0..2 {
            set(&mut img1, x, y, BLACK);
            set(&mut img2, x, y, BLACK);
        }
        set(&mut img1, 2, y, GRAY);
        set(&mut img2, 2, y, BLACK);
    }
    (img1, img2)
}

#[test]
fn throws_error_if_image_sizes_do_not_match() {
    let img1 = Image { width: 2, height: 1, data: vec![0; 8] };
    let img2 = Image { width: 2, height: 1, data: vec![0; 9] };
    let output: Option<&mut Image> = None;
    assert_eq!(
        pixelmatch(&img1, &img2, output, Some(2), Some(1), None).map_err(|err| err.message()),
        Err(String::from("Image sizes do not match"))
    );
}

#[test]
fn differing_dimensions_are_refused() {
    let img1 = filled(2, 3, WHITE);
    let img2 = filled(3, 2, WHITE);
    let mut out = Image::new(1, 1);
    let before = out.data.clone();
    assert_eq!(
        pixelmatch(&img1, &img2, Some(&mut out), None, None, None),
        Err(PixelmatchError::SizesDoNotMatch)
    );
    assert_eq!(out.data, before);
}

#[test]
fn data_size_must_match_dimensions() {
    let img1 = Image { width: 2, height: 2, data: vec![0; 8] };
    let img2 = Image { width: 2, height: 2, data: vec![0; 8] };
    let r = pixelmatch(&img1, &img2, None, None, None, None);
    assert_eq!(r, Err(PixelmatchError::DataSizeMismatch));
    assert_eq!(
        r.map_err(|e| e.message()),
        Err(String::from("Image data size does not match width/height"))
    );
}

#[test]
fn expected_dimensions_are_checked() {
    let img = filled(2, 2, WHITE);
    assert_eq!(
        pixelmatch(&img, &img, None, Some(2), Some(3), None),
        Err(PixelmatchError::DataSizeMismatch)
    );
    assert_eq!(pixelmatch(&img, &img, None, Some(2), None, None), Ok(0));
}

#[test]
fn identical_images_have_no_diff() {
    let (_, img) = flat_square();
    for threshold in [0, 100_000, 1_000_000] {
        for include_aa in [false, true] {
            let options = Options { threshold, include_aa, ..Default::default() };
            assert_eq!(pixelmatch(&img, &img, None, None, None, Some(options)), Ok(0));
        }
    }
}

#[test]
fn identical_images_render_gray_background() {
    let img = filled(2, 1, BLACK);
    let mut out = Image::new(0, 0);
    assert_eq!(pixelmatch(&img, &img, Some(&mut out), None, None, None), Ok(0));
    assert_eq!((out.width, out.height), (2, 1));
    assert_eq!(pixel(&out, 0, 0), [229, 229, 229, 229]);
    assert_eq!(pixel(&out, 1, 0), [229, 229, 229, 229]);
}

#[test]
fn flat_square_counts_its_pixels() {
    let (img1, img2) = flat_square();
    for include_aa in [false, true] {
        let options = Options { threshold: 50_000, include_aa, ..Default::default() };
        assert_eq!(pixelmatch(&img1, &img2, None, None, None, Some(options)), Ok(9));
    }
}

#[test]
fn antialiased_edge_is_not_counted() {
    let (img1, img2) = soft_edge();
    let mut out = Image::new(0, 0);
    assert_eq!(pixelmatch(&img1, &img2, Some(&mut out), None, None, None), Ok(0));
    for y in 0..5 {
        assert_eq!(pixel(&out, 2, y), [255, 255, 0, 255]);
    }
    let options = Options { include_aa: true, ..Default::default() };
    assert_eq!(pixelmatch(&img1, &img2, None, None, None, Some(options)), Ok(5));
}

#[test]
fn threshold_is_monotone_on_an_example() {
    let (img1, img2) = soft_edge();
    let mut last = usize::MAX;
    for threshold in [0, 200_000, 500_000, 700_000, 1_000_000] {
        let options = Options { threshold, include_aa: true, ..Default::default() };
        let n = pixelmatch(&img1, &img2, None, None, None, Some(options)).unwrap();
        assert!(n <= last);
        last = n;
    }
    assert_eq!(last, 0);
}

#[test]
fn mask_draws_only_differences() {
    let (img1, mut img2) = soft_edge();
    set(&mut img2, 4, 4, BLACK);
    let mut out = Image::new(0, 0);
    let options = Options { diff_mask: true, ..Default::default() };
    assert_eq!(pixelmatch(&img1, &img2, Some(&mut out), None, None, Some(options)), Ok(1));
    for y in 0..5 {
        for x in 0..5 {
            let expected = if (x, y) == (4, 4) { [255, 0, 0, 255] } else { [0, 0, 0, 0] };
            assert_eq!(pixel(&out, x, y), expected);
        }
    }
}

#[test]
fn alternative_color_marks_darker_first_image() {
    let img1 = Image { width: 2, height: 1, data: vec![255, 255, 255, 255, 0, 0, 0, 255] };
    let img2 = Image { width: 2, height: 1, data: vec![0, 0, 0, 255, 255, 255, 255, 255] };
    let options = Options { diff_color_alt: Some([0, 255, 0, 255]), ..Default::default() };
    let mut out = Image::new(0, 0);
    assert_eq!(pixelmatch(&img1, &img2, Some(&mut out), None, None, Some(options)), Ok(2));
    assert_eq!(pixel(&out, 0, 0), [255, 0, 0, 255]);
    assert_eq!(pixel(&out, 1, 0), [0, 255, 0, 255]);
    let mut plain = Image::new(0, 0);
    assert_eq!(pixelmatch(&img1, &img2, Some(&mut plain), None, None, None), Ok(2));
    assert_eq!(pixel(&plain, 0, 0), [255, 0, 0, 255]);
    assert_eq!(pixel(&plain, 1, 0), [255, 0, 0, 255]);
}

#[test]
fn count_does_not_depend_on_where_differences_are() {
    let img1 = filled(4, 4, WHITE);
    let mut a = filled(4, 4, WHITE);
    let mut b = filled(4, 4, WHITE);
    set(&mut a, 0, 0, RED);
    set(&mut a, 3, 3, RED);
    set(&mut b, 3, 0, RED);
    set(&mut b, 0, 3, RED);
    assert_eq!(pixelmatch(&img1, &a, None, None, None, None), Ok(2));
    assert_eq!(pixelmatch(&img1, &b, None, None, None, None), Ok(2));
}

#[test]
fn color_delta_exact_values() {
    assert_eq!(color_delta(WHITE, WHITE, false), 0);
    assert_eq!(color_delta(WHITE, BLACK, true), 6_502_500_065_025);
    assert_eq!(color_delta(BLACK, WHITE, true), -6_502_500_065_025);
    assert_eq!(color_delta(WHITE, BLACK, false), -213_653_508_354_320_102_990_350_408_125);
    assert_eq!(color_delta(BLACK, WHITE, false), 213_653_508_354_320_102_990_350_408_125);
    let clear = Rgba { r: 0, g: 0, b: 0, a: 0 };
    assert_eq!(color_delta(clear, WHITE, true), 0);
    assert_eq!(color_delta(clear, WHITE, false), 0);
}

#[test]
fn default_options() {
    let o = Options::default();
    assert_eq!(o.threshold, 100_000);
    assert!(!o.include_aa);
    assert_eq!(o.alpha, 100_000);
    assert_eq!(o.aa_color, [255, 255, 0, 255]);
    assert_eq!(o.diff_color, [255, 0, 0, 255]);
    assert_eq!(o.diff_color_alt, None);
    assert!(!o.diff_mask);
}

#[test]
fn png_round_trip() {
    let (_, img) = flat_square();
    let bytes = encode_png(&img).unwrap();
    assert_eq!(&bytes[1..4], b"PNG");
    let back = decode_png(&bytes).unwrap();
    assert_eq!((back.width, back.height), (8, 8));
    assert_eq!(back.data, img.data);
}

#[test]
fn png_garbage_is_refused() {
    assert_eq!(decode_png(&[0; 8]).map(|i| i.width), Err(PixelmatchError::Decode));
    let bad = Image { width: 3, height: 3, data: vec![0; 5] };
    assert_eq!(encode_png(&bad), Err(PixelmatchError::DataSizeMismatch));
}

#[test]
fn png_comparison_renders_diff() {
    let (img1, img2) = flat_square();
    let a = encode_png(&img1).unwrap();
    let b = encode_png(&img2).unwrap();
    let mut out = Vec::new();
    assert_eq!(pixelmatch_png(&a, &b, Some(&mut out), None, None, None), Ok(9));
    let diff = decode_png(&out).unwrap();
    assert_eq!(pixel(&diff, 3, 3), [255, 0, 0, 255]);
    assert_eq!(pixel(&diff, 0, 0), [255, 255, 255, 255]);
    assert_eq!(pixelmatch_png(&[0; 8], &b, None, None, None, None), Err(PixelmatchError::Decode));
}

#[test]
fn png_empty_raster_is_refused() {
    let empty = Image::new(0, 3);
    assert_eq!(encode_png(&empty), Err(PixelmatchError::Encode));
}
