use vstd::prelude::*;

verus! {

#[verifier::external_type_specification]
#[verifier::external_body]
pub struct ExImageError(image::ImageError);

/// The PNG file that the `image` crate writes for a single-channel 8-bit
/// raster of `width` by `height` pixels with the given row-major bytes.
pub uninterp spec fn gray_png_of(pixels: Seq<u8>, width: u32, height: u32) -> Seq<u8>;

/// Relies on `image::png::PngEncoder::encode` with `ColorType::L8`, writing
/// into a `Vec<u8>`: the bytes written depend on the arguments alone, and on
/// positive bounds with a buffer of exactly `width * height` bytes the
/// encoder has no error path (every write goes to the vector). The encoder
/// computes a row length of `width + 1` bytes in a `usize`.
#[verifier::external_body]
fn png_encode_gray(pixels: &[u8], width: u32, height: u32) -> (r: Result<Vec<u8>, image::ImageError>)
    requires
        width > 0,
        height > 0,
        width < usize::MAX,
        pixels@.len() == width * height,
    ensures
        r is Ok,
        r matches Ok(bytes) ==> bytes@ == gray_png_of(pixels@, width, height),
{
    let mut bytes: Vec<u8> = Vec::new();
    let encoder = image::png::PngEncoder::new(&mut bytes);
    let result = encoder.encode(pixels, width, height, image::ColorType::L8);
    result.map(|_| bytes)
}

/// Why a buffer could not be framed as an image file: the bounds are zero,
/// do not fit the format, or do not match the buffer's length.
pub enum EncodeError {
    Dimensions,
}

/// Whether a buffer of `len` bytes can be written as an image with the given
/// bounds: both sides positive, each fitting a `u32` (and the width below
/// `usize::MAX`), and `len` exactly `width * height`.
pub open spec fn dimensions_fit(len: nat, bounds: (usize, usize)) -> bool {
    &&& 0 < bounds.0 <= u32::MAX
    &&& bounds.0 < usize::MAX
    &&& 0 < bounds.1 <= u32::MAX
    &&& len == bounds.0 * bounds.1
}

/// Frames `pixels`, a row-major single-channel 8-bit buffer with the given
/// bounds, as a PNG file.
pub fn encode_image(pixels: &[u8], bounds: (usize, usize)) -> (r: Result<Vec<u8>, EncodeError>)
    ensures
        !dimensions_fit(pixels@.len(), bounds) ==> r matches Err(EncodeError::Dimensions),
        dimensions_fit(pixels@.len(), bounds) ==> r is Ok,
        r matches Ok(bytes) ==> bytes@ == gray_png_of(pixels@, bounds.0 as u32, bounds.1 as u32),
{
    let (width, height) = bounds;
    let len = pixels.len();
    if width == 0 || height == 0 || width > u32::MAX as usize || height > u32::MAX as usize
        || width == usize::MAX {
        return Err(EncodeError::Dimensions);
    }
    match width.checked_mul(height) {
        None => {
            return Err(EncodeError::Dimensions);
        },
        Some(n) => {
            if len != n {
                return Err(EncodeError::Dimensions);
            }
        },
    }
    match png_encode_gray(pixels, width as u32, height as u32) {
        Ok(bytes) => Ok(bytes),
        // The encoder does not fail on bounds that fit.
        Err(_) => Err(EncodeError::Dimensions),
    }
}

} // verus!
