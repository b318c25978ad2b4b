//! PNG encoding of finished framebuffers, through the `image` crate.
//! Encoding is deterministic in the raster alone, so the result is
//! named rather than described; the capture finalisers state their
//! output in terms of these names.

use vstd::prelude::*;

verus! {

/// The PNG encoding of an 8-bit raster: RGBA when `rgba` is set, RGB
/// otherwise.
pub uninterp spec fn png_bytes_of(data: Seq<u8>, width: u32, height: u32, rgba: bool) -> Seq<u8>;

/// Whether encoding an 8-bit raster succeeds. With the buffer length
/// pinned by the wrapper's precondition the encoder does no I/O, so
/// success too is a function of the raster and dimensions alone.
pub uninterp spec fn png8_encode_ok(data: Seq<u8>, width: u32, height: u32, rgba: bool) -> bool;

/// The PNG encoding of a 16-bit-per-channel RGB raster.
pub uninterp spec fn png_bytes16_of(data: Seq<u16>, width: u32, height: u32) -> Seq<u8>;

/// Whether encoding a 16-bit raster succeeds.
pub uninterp spec fn png16_encode_ok(data: Seq<u16>, width: u32, height: u32) -> bool;

/// Relies on `PngEncoder::write_image` of the image crate: encodes an
/// 8-bit raster as PNG into memory. The result depends on the raster
/// and dimensions alone.
#[verifier::external_body]
pub(crate) fn encode_png8(data: &Vec<u8>, width: u32, height: u32, rgba: bool) -> (r: Result<
    Vec<u8>,
    String,
>)
    requires
        data@.len() == (if rgba {
            4int
        } else {
            3int
        }) * width * height,
    ensures
        r is Ok <==> png8_encode_ok(data@, width, height, rgba),
        r matches Ok(v) ==> v@ == png_bytes_of(data@, width, height, rgba),
{
    let mut out: Vec<u8> = Vec::new();
    let color = if rgba {
        image::ExtendedColorType::Rgba8
    } else {
        image::ExtendedColorType::Rgb8
    };
    let enc = image::codecs::png::PngEncoder::new(&mut out);
    match image::ImageEncoder::write_image(enc, data.as_slice(), width, height, color) {
        Ok(()) => Ok(out),
        Err(e) => Err(e.to_string()),
    }
}

/// Relies on `PngEncoder::write_image` of the image crate: encodes a
/// 16-bit-per-channel RGB raster as PNG into memory. The encoder takes
/// the samples in native byte order and writes them big-endian, so the
/// result depends on the raster and dimensions alone.
#[verifier::external_body]
pub(crate) fn encode_png16(data: &Vec<u16>, width: u32, height: u32) -> (r: Result<
    Vec<u8>,
    String,
>)
    requires
        data@.len() == 3 * width * height,
    ensures
        r is Ok <==> png16_encode_ok(data@, width, height),
        r matches Ok(v) ==> v@ == png_bytes16_of(data@, width, height),
{
    let mut out: Vec<u8> = Vec::new();
    let bytes: Vec<u8> = data.iter().flat_map(|v| v.to_ne_bytes()).collect();
    let enc = image::codecs::png::PngEncoder::new(&mut out);
    match image::ImageEncoder::write_image(
        enc,
        bytes.as_slice(),
        width,
        height,
        image::ExtendedColorType::Rgb16,
    ) {
        Ok(()) => Ok(out),
        Err(e) => Err(e.to_string()),
    }
}

} // verus!
