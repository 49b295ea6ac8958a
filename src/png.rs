use vstd::prelude::*;

verus! {

#[verifier::external_type_specification]
#[verifier::external_body]
pub struct ExImageError(image::ImageError);

/// The PNG file that the `image` crate writes for an 8-bit RGB raster of the
/// given extent. It depends on the pixels and the extent alone.
pub uninterp spec fn png_rgb8(pixels: Seq<u8>, width: u32, height: u32) -> Seq<u8>;

/// Relies on `image::png::PngEncoder::encode` with `ColorType::Rgb8`, writing
/// into memory: the underlying `png` writer refuses a zero width or height,
/// and with a buffer of exactly `3 * width * height` bytes and an in-memory
/// sink it reports no other error.
#[verifier::external_body]
pub(crate) fn png_encode_rgb8(pixels: &Vec<u8>, width: u32, height: u32) -> (r: Result<Vec<u8>, image::ImageError>)
    requires
        pixels@.len() == 3 * width * height,
    ensures
        r is Err <==> (width == 0 || height == 0),
        r matches Ok(bytes) ==> bytes@ == png_rgb8(pixels@, width, height),
{
    let mut out: Vec<u8> = Vec::new();
    let res = image::png::PngEncoder::new(&mut out).encode(pixels, width, height, image::ColorType::Rgb8);
    match res {
        Ok(()) => Ok(out),
        Err(e) => Err(e),
    }
}

} // verus!
