use vstd::prelude::*;
use crate::compare::{PixelmatchError, Options, pixelmatch, sizes_differ, data_size_wrong, diff_count, is_rendering, options_or_default};
use crate::raster::Image;

verus! {

#[verifier::external_type_specification]
#[verifier::external_body]
pub struct ExImageError(image::ImageError);

/// What the PNG decoder makes of `bytes`: width, height and RGBA bytes,
/// or nothing where it refuses them.
pub uninterp spec fn png_pixels(bytes: Seq<u8>) -> Option<(u32, u32, Seq<u8>)>;

/// The PNG encoding of an RGBA raster.
pub uninterp spec fn png_encoding(width: u32, height: u32, data: Seq<u8>) -> Seq<u8>;

/// Relies on `image::codecs::png::PngDecoder::new`, `DynamicImage::from_decoder`
/// and `DynamicImage::to_rgba8`: the decoded raster, converted to RGBA with
/// 8 bits per channel, whose buffer holds exactly four bytes per pixel.
#[verifier::external_body]
fn read_png(bytes: &[u8]) -> (r: Result<(u32, u32, Vec<u8>), image::ImageError>)
    ensures
        r is Ok <==> png_pixels(bytes@) is Some,
        r is Ok ==> png_pixels(bytes@) == Some((r->Ok_0.0, r->Ok_0.1, r->Ok_0.2@)),
        r is Ok ==> r->Ok_0.2@.len() == 4 * (r->Ok_0.0 * r->Ok_0.1),
{
    let decoder = image::codecs::png::PngDecoder::new(bytes)?;
    let rgba = image::DynamicImage::from_decoder(decoder)?.to_rgba8();
    Ok((rgba.width(), rgba.height(), rgba.into_raw()))
}

/// Relies on `image::RgbaImage::from_raw`, which accepts a buffer of four
/// bytes per pixel, and `ImageBuffer::write_to` with the PNG format, whose
/// encoder refuses only a zero width or height; an in-memory writer does
/// not fail.
#[verifier::external_body]
fn write_png(width: u32, height: u32, data: Vec<u8>) -> (r: Result<Vec<u8>, image::ImageError>)
    requires
        data@.len() == 4 * (width * height),
    ensures
        width > 0 && height > 0 ==> r is Ok,
        r is Ok ==> r->Ok_0@ == png_encoding(width, height, data@),
{
    let buffer = image::RgbaImage::from_raw(width, height, data).unwrap();
    let mut bytes = std::io::Cursor::new(Vec::new());
    buffer.write_to(&mut bytes, image::ImageOutputFormat::Png)?;
    Ok(bytes.into_inner())
}

/// `img` is what the PNG decoder makes of `bytes`.
pub open spec fn decodes_to(bytes: Seq<u8>, img: Image) -> bool {
    png_pixels(bytes) == Some((img.width, img.height, img.data@))
}

/// Decodes a PNG image into an RGBA raster.
pub fn decode_png(bytes: &[u8]) -> (r: Result<Image, PixelmatchError>)
    ensures
        png_pixels(bytes@) is None ==> r == Err::<Image, PixelmatchError>(PixelmatchError::Decode),
        png_pixels(bytes@) is Some ==> r is Ok && decodes_to(bytes@, r->Ok_0) && r->Ok_0.wf(),
{
    match read_png(bytes) {
        Ok((width, height, data)) => Ok(Image { width, height, data }),
        Err(_) => Err(PixelmatchError::Decode),
    }
}

/// Encodes an RGBA raster as PNG.
pub fn encode_png(img: &Image) -> (r: Result<Vec<u8>, PixelmatchError>)
    ensures
        !img.wf() ==> r == Err::<Vec<u8>, PixelmatchError>(PixelmatchError::DataSizeMismatch),
        img.wf() ==> r is Ok || r == Err::<Vec<u8>, PixelmatchError>(PixelmatchError::Encode),
        img.wf() && img.width > 0 && img.height > 0 ==> r is Ok,
        r is Ok ==> r->Ok_0@ == png_encoding(img.width, img.height, img.data@),
{
    proof {
        assert(0 <= img.width * img.height <= 4294967295 * 4294967295) by (nonlinear_arith)
            requires
                0 <= img.width <= 4294967295,
                0 <= img.height <= 4294967295,
        ;
    }
    if img.data.len() as u128 != 4 * ((img.width as u128) * (img.height as u128)) {
        return Err(PixelmatchError::DataSizeMismatch);
    }
    match write_png(img.width, img.height, img.data.clone()) {
        Ok(bytes) => Ok(bytes),
        Err(_) => Err(PixelmatchError::Encode),
    }
}

/// What `pixelmatch` returns for two rasters, whatever is rendered.
pub open spec fn comparison(
    a: Image,
    b: Image,
    width: Option<u32>,
    height: Option<u32>,
    options: Option<Options>,
) -> Result<usize, PixelmatchError> {
    if sizes_differ(a, b) {
        Err(PixelmatchError::SizesDoNotMatch)
    } else if data_size_wrong(a, width, height) {
        Err(PixelmatchError::DataSizeMismatch)
    } else {
        Ok(diff_count(a, b, options_or_default(options)) as usize)
    }
}

/// Compares two PNG images: decodes both, compares them with `pixelmatch`
/// and, where `output` is given and the comparison succeeds, replaces its
/// contents by the PNG encoding of the rendered diff. The encoder refuses
/// an empty raster.
pub fn pixelmatch_png(
    img1: &[u8],
    img2: &[u8],
    output: Option<&mut Vec<u8>>,
    width: Option<u32>,
    height: Option<u32>,
    options: Option<Options>,
) -> (r: Result<usize, PixelmatchError>)
    ensures
        png_pixels(img1@) is None || png_pixels(img2@) is None ==> r == Err::<
            usize,
            PixelmatchError,
        >(PixelmatchError::Decode),
        png_pixels(img1@) is Some && png_pixels(img2@) is Some ==> exists|a: Image, b: Image|
            #![trigger decodes_to(img1@, a), decodes_to(img2@, b)]
            {
                &&& decodes_to(img1@, a)
                &&& decodes_to(img2@, b)
                &&& a.wf()
                &&& b.wf()
                &&& (r == comparison(a, b, width, height, options) || (output is Some
                    && comparison(a, b, width, height, options) is Ok && (a.width == 0
                    || a.height == 0) && r
                    == Err::<usize, PixelmatchError>(PixelmatchError::Encode)))
                &&& (output is Some && r is Ok ==> exists|o: Image|
                    #![trigger is_rendering(o, a, b, options_or_default(options))]
                    is_rendering(o, a, b, options_or_default(options)) && final(output.unwrap())@
                        == png_encoding(o.width, o.height, o.data@))
            },
        output is Some && r is Err ==> *final(output.unwrap()) == *output.unwrap(),
{
    let a = match decode_png(img1) {
        Ok(a) => a,
        Err(e) => return Err(e),
    };
    let b = match decode_png(img2) {
        Ok(b) => b,
        Err(e) => return Err(e),
    };
    match output {
        None => {
            let r = pixelmatch(&a, &b, None, width, height, options);
            assert(r == comparison(a, b, width, height, options));
            r
        },
        Some(out) => {
            let mut canvas = Image::new(0, 0);
            let r = pixelmatch(&a, &b, Some(&mut canvas), width, height, options);
            assert(r == comparison(a, b, width, height, options));
            match r {
                Ok(n) => match encode_png(&canvas) {
                    Ok(bytes) => {
                        *out = bytes;
                        assert(is_rendering(canvas, a, b, options_or_default(options)));
                        Ok(n)
                    },
                    Err(_) => Err(PixelmatchError::Encode),
                },
                Err(e) => Err(e),
            }
        },
    }
}

} // verus!
