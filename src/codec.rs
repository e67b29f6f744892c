use vstd::prelude::*;
use image::ImageEncoder;

verus! {

#[verifier::external_type_specification]
#[verifier::external_body]
pub struct ExImageError(image::ImageError);

/// The raster that a PNG file decodes to, as width, height and RGB bytes
/// (three per pixel, rows top to bottom), or `None` where the bytes are no
/// PNG that the image codec reads.
pub uninterp spec fn png_decoded(bytes: Seq<u8>) -> Option<(u32, u32, Seq<u8>)>;

/// The PNG file that the image codec writes for an RGB raster, or `None`
/// where it refuses the raster.
pub uninterp spec fn png_encoded(width: u32, height: u32, pixels: Seq<u8>) -> Option<Seq<u8>>;

/// Relies on `image::load_from_memory_with_format` with the PNG format, and on
/// `DynamicImage::to_rgb8` to bring the decoded image to RGB bytes: the result
/// depends on the bytes alone.
#[verifier::external_body]
pub(crate) fn decode_png(bytes: &[u8]) -> (r: Result<(u32, u32, Vec<u8>), image::ImageError>)
    ensures
        match r {
            Ok((w, h, p)) => png_decoded(bytes@) == Some((w, h, p@)),
            Err(_) => png_decoded(bytes@) is None,
        },
{
    match image::load_from_memory_with_format(bytes, image::ImageFormat::Png) {
        Ok(image) => {
            let rgb = image.to_rgb8();
            Ok((rgb.width(), rgb.height(), rgb.into_raw()))
        },
        Err(e) => Err(e),
    }
}

/// Relies on `PngEncoder::write_image` of the image crate, with RGB 8-bit
/// samples: the result depends on the raster alone. The encoder panics when
/// the buffer length is not three bytes per pixel, which `requires` rules out.
#[verifier::external_body]
pub(crate) fn encode_png(width: u32, height: u32, pixels: &[u8]) -> (r: Result<Vec<u8>, image::ImageError>)
    requires
        pixels@.len() == width * height * 3,
    ensures
        match r {
            Ok(b) => png_encoded(width, height, pixels@) == Some(b@),
            Err(_) => png_encoded(width, height, pixels@) is None,
        },
{
    let mut out: Vec<u8> = Vec::new();
    let encoder = image::codecs::png::PngEncoder::new(&mut out);
    match encoder.write_image(pixels, width, height, image::ExtendedColorType::Rgb8) {
        Ok(()) => Ok(out),
        Err(e) => Err(e),
    }
}

} // verus!
