//! Trusted boundary to the outside codecs: image decoding, lossless
//! PNG re-encoding, and base64. Each call's result is a function of its
//! arguments alone, so it is given a name that the callers' contracts
//! speak of.

use vstd::prelude::*;
use crate::raster::{RasterImage, RasterView};

verus! {

/// What decoding a byte buffer yields: `None` where the bytes are not a
/// recognized, well-formed image; otherwise the decoded RGB raster.
pub uninterp spec fn decode_spec(bytes: Seq<u8>) -> Option<RasterView>;

/// What PNG-encoding a raster yields: `None` where the encoder refuses
/// the raster; otherwise the PNG byte stream.
pub uninterp spec fn png_encode(v: RasterView) -> Option<Seq<u8>>;

/// What standard padded base64 encoding of a byte buffer yields.
pub uninterp spec fn base64_of(bytes: Seq<u8>) -> Seq<char>;

/// Relies on `image::guess_format`, `image::load_from_memory_with_format`
/// and `DynamicImage::into_rgb8`. These consult only the built-in
/// signature table and built-in decoders — never the process-global
/// decoding-hook registry — so the result is a function of the bytes
/// alone. A decoded buffer holds exactly `width * height * 3` channel
/// bytes with dimensions read from 32-bit fields; an empty buffer
/// matches no signature.
#[verifier::external_body]
pub(crate) fn decode_image(bytes: &Vec<u8>) -> (r: Option<RasterImage>)
    ensures
        match r {
            Some(img) => img.wf() && decode_spec(bytes@) == Some(img@),
            None => decode_spec(bytes@) is None,
        },
        bytes@.len() == 0 ==> r is None,
{
    let format = match image::guess_format(bytes.as_slice()) {
        Ok(f) => f,
        Err(_) => return None,
    };
    match image::load_from_memory_with_format(bytes.as_slice(), format) {
        Ok(decoded) => {
            let rgb = decoded.into_rgb8();
            let width = rgb.width() as usize;
            let height = rgb.height() as usize;
            Some(RasterImage { width, height, data: rgb.into_raw() })
        }
        Err(_) => None,
    }
}

/// Relies on `ImageBuffer::from_raw` and `ImageBuffer::write_to` with
/// the PNG format: the encoded bytes are a function of the raster
/// alone, and 8-bit RGB PNG is lossless, so whenever the encoded bytes
/// decode again they restore exactly the raster that was encoded.
/// Re-decoding is guaranteed to succeed only for rasters up to
/// `0x10000000` (256 MiB) of channel data: the decoder enforces a
/// 512 MiB allocation cap that both the output buffer and the PNG
/// reader's internal line buffers draw on, so half the cap leaves the
/// internal buffers room on any raster shape.
#[verifier::external_body]
pub(crate) fn encode_png(img: &RasterImage) -> (r: Option<Vec<u8>>)
    requires
        img.wf(),
    ensures
        match r {
            Some(b) => png_encode(img@) == Some(b@)
                && (decode_spec(b@) matches Some(v) ==> v == img@)
                && (img@.width * img@.height * 3 <= 0x10000000
                    ==> decode_spec(b@) == Some(img@)),
            None => png_encode(img@) is None,
        },
{
    let rgb: image::RgbImage =
        match image::ImageBuffer::from_raw(img.width as u32, img.height as u32, img.data.clone()) {
            Some(b) => b,
            None => {
                return None;
            },
        };
    let mut out: Vec<u8> = Vec::new();
    match rgb.write_to(&mut std::io::Cursor::new(&mut out), image::ImageFormat::Png) {
        Ok(()) => Some(out),
        Err(_) => None,
    }
}

/// Relies on base64's `general_purpose::STANDARD` engine: the encoding
/// is a function of the bytes alone, and the padded output holds four
/// characters for every started group of three input bytes. The engine
/// panics when that output length overflows, so such buffers are
/// excluded.
#[verifier::external_body]
pub(crate) fn base64_encode(bytes: &Vec<u8>) -> (r: String)
    requires
        4 * ((bytes@.len() + 2) / 3) <= usize::MAX,
    ensures
        r@ == base64_of(bytes@),
        r@.len() == 4 * ((bytes@.len() + 2) / 3),
{
    base64::Engine::encode(&base64::engine::general_purpose::STANDARD, bytes.as_slice())
}

} // verus!
