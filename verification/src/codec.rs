//! The raster-file boundary: a finished pixel buffer is encoded as a
//! single-channel, 8-bit PNG, and such bytes decode back to exactly the
//! pixels that went in. The codec itself is the `image` crate's; writing
//! the bytes to disk is the caller's affair.

use vstd::prelude::*;
use crate::geometry::ImageBounds;
use image::ImageEncoder;

verus! {

/// The PNG byte string that the `image` crate's PNG encoder produces for
/// an 8-bit grayscale image: a function of the pixels and dimensions
/// alone.
pub uninterp spec fn png_bytes_of(pixels: Seq<u8>, width: u32, height: u32) -> Seq<u8>;

/// The 8-bit grayscale image that the `image` crate decodes from a byte
/// string when its decode limits are removed, as (width, height,
/// row-major pixels); `None` for bytes that do not decode. A function of
/// the bytes alone.
pub uninterp spec fn gray_image_of(bytes: Seq<u8>) -> Option<(u32, u32, Seq<u8>)>;

/// Relies on `image`'s `PngEncoder`: the bytes it writes for an `L8`
/// image depend only on the pixels and dimensions, and PNG is lossless,
/// so decoding those bytes (with decode limits removed, as the paired
/// decoder does) recovers exactly the image that was encoded. The
/// encoder asserts that the buffer length matches the dimensions, so
/// that is required here; given that, its only failures are a zero width
/// or height, since writing into a `Vec` cannot fail, so it succeeds on
/// every nonempty image.
#[verifier::external_body]
fn png_encode_gray(pixels: &Vec<u8>, width: u32, height: u32) -> (r: Option<Vec<u8>>)
    requires
        pixels@.len() == width * height,
    ensures
        width > 0 && height > 0 ==> r is Some,
        r matches Some(b) ==> b@ == png_bytes_of(pixels@, width, height),
        r matches Some(b) ==> gray_image_of(b@) == Some((width, height, pixels@)),
{
    let mut out: Vec<u8> = Vec::new();
    let encoder = image::codecs::png::PngEncoder::new(&mut out);
    match encoder.write_image(pixels, width, height, image::ExtendedColorType::L8) {
        Ok(()) => Some(out),
        Err(_) => None,
    }
}

/// Relies on `image::ImageReader` with `no_limits` and
/// `DynamicImage::into_luma8`: which byte strings decode, and to what
/// grayscale image, is a function of the bytes alone. The decode limits
/// are removed because the default ones refuse large images outright,
/// which would break the encoder's round-trip promise; reading from an
/// in-memory cursor cannot fail.
#[verifier::external_body]
fn png_decode_gray(bytes: &Vec<u8>) -> (r: Option<(u32, u32, Vec<u8>)>)
    ensures
        r matches Some(d) ==> gray_image_of(bytes@) == Some((d.0, d.1, d.2@)),
        r is None ==> gray_image_of(bytes@) is None,
{
    let mut reader = image::ImageReader::new(std::io::Cursor::new(bytes.as_slice()));
    reader.no_limits();
    let decoded = match reader.with_guessed_format() {
        Ok(guessed) => guessed.decode(),
        Err(e) => Err(image::ImageError::IoError(e)),
    };
    match decoded {
        Ok(img) => {
            let gray = img.into_luma8();
            Some((gray.width(), gray.height(), gray.into_raw()))
        },
        Err(_) => None,
    }
}

/// The raster artifact for a finished pixel buffer: the PNG bytes for
/// the buffer under the given bounds. Well-formed bounds have positive
/// sides, so the encoder always succeeds, and the bytes decode back to
/// exactly the buffer that was handed in — the artifact is lossless.
pub fn image_bytes(pixels: &Vec<u8>, bounds: &ImageBounds) -> (r: Option<Vec<u8>>)
    requires
        bounds.wf(),
        pixels@.len() == bounds.spec_pixel_count(),
        bounds.width <= u32::MAX,
        bounds.height <= u32::MAX,
    ensures
        r is Some,
        r matches Some(b) ==> b@ == png_bytes_of(
            pixels@,
            bounds.width as u32,
            bounds.height as u32,
        ),
        r matches Some(b) ==> gray_image_of(b@) == Some(
            (bounds.width as u32, bounds.height as u32, pixels@),
        ),
{
    png_encode_gray(pixels, bounds.width as u32, bounds.height as u32)
}

/// Decode a raster artifact back to (width, height, pixels): for bytes
/// produced by `image_bytes` this recovers exactly the encoded buffer.
pub fn decode_image(bytes: &Vec<u8>) -> (r: Option<(u32, u32, Vec<u8>)>)
    ensures
        r matches Some(d) ==> gray_image_of(bytes@) == Some((d.0, d.1, d.2@)),
        r is None ==> gray_image_of(bytes@) is None,
{
    png_decode_gray(bytes)
}

} // verus!
