//! Calls into the image codec, the base64 encoder and std's Unicode string
//! operations. Each result is named by a specification function of its
//! arguments, so that callers can state exactly what they hand back.
use vstd::prelude::*;

use base64::Engine;

use crate::types::{ImageFormatKind, RgbaImage};

verus! {

/// The standard (padded) base64 text of some bytes.
pub uninterp spec fn base64_standard(bytes: Seq<u8>) -> Seq<char>;

/// The PNG file that the image codec writes for an RGBA image, if it writes one.
pub uninterp spec fn png_encoding(width: u32, height: u32, rgba: Seq<u8>) -> Option<Seq<u8>>;

/// The RGBA pixels that the image codec decodes from bytes of a format, if it can.
pub uninterp spec fn decoded_image(format: ImageFormatKind, bytes: Seq<u8>) -> Option<
    (u32, u32, Seq<u8>),
>;

/// The Unicode lowercase mapping of a text.
pub uninterp spec fn lower_of(s: Seq<char>) -> Seq<char>;

/// A text without its leading and trailing Unicode white space.
pub uninterp spec fn trim_of(s: Seq<char>) -> Seq<char>;

/// Relies on base64's `STANDARD.encode`: padded standard alphabet, four
/// characters for every three bytes or part of them.
#[verifier::external_body]
pub(crate) fn encode_base64(bytes: &Vec<u8>) -> (r: String)
    ensures
        r@ == base64_standard(bytes@),
        r@.len() == 4 * ((bytes@.len() + 2) / 3),
{
    base64::engine::general_purpose::STANDARD.encode(bytes)
}

/// Relies on image's `ImageBuffer::from_raw` and `write_to` with the PNG format.
#[verifier::external_body]
pub(crate) fn encode_png(width: u32, height: u32, rgba: &Vec<u8>) -> (r: Option<Vec<u8>>)
    requires
        rgba@.len() == 4 * (width as int) * (height as int),
    ensures
        r matches Some(v) ==> png_encoding(width, height, rgba@) == Some(v@),
        r is None ==> png_encoding(width, height, rgba@) is None,
{
    let buffer: image::RgbaImage = image::ImageBuffer::from_raw(width, height, rgba.clone())?;
    let mut out: Vec<u8> = Vec::new();
    match buffer.write_to(&mut std::io::Cursor::new(&mut out), image::ImageFormat::Png) {
        Ok(()) => Some(out),
        Err(_) => None,
    }
}

/// Relies on image's `load_from_memory_with_format` and `to_rgba8`, whose
/// buffer holds four bytes for each pixel.
#[verifier::external_body]
pub(crate) fn decode_image(bytes: &[u8], format: ImageFormatKind) -> (r: Option<RgbaImage>)
    ensures
        r matches Some(img) ==> img.wf() && decoded_image(format, bytes@) == Some(
            (img.width, img.height, img.data@),
        ),
        r is None ==> decoded_image(format, bytes@) is None,
{
    let f = match format {
        ImageFormatKind::Png => image::ImageFormat::Png,
        ImageFormatKind::Bmp => image::ImageFormat::Bmp,
        ImageFormatKind::Jpeg => image::ImageFormat::Jpeg,
        ImageFormatKind::Ico => image::ImageFormat::Ico,
    };
    let rgba = image::load_from_memory_with_format(bytes, f).ok()?.to_rgba8();
    Some(RgbaImage { width: rgba.width(), height: rgba.height(), data: rgba.into_raw() })
}

/// Relies on `str::to_lowercase`: the result depends on the characters alone.
#[verifier::external_body]
pub(crate) fn lowercase(s: &str) -> (r: String)
    ensures
        r@ == lower_of(s@),
{
    s.to_lowercase()
}

/// Relies on `str::trim`: the result depends on the characters alone.
#[verifier::external_body]
pub(crate) fn trimmed(s: &str) -> (r: String)
    ensures
        r@ == trim_of(s@),
{
    s.trim().to_string()
}

/// Relies on `String::from_iter` over characters: the text holds them in order.
#[verifier::external_body]
pub(crate) fn string_from_chars(chars: &Vec<char>) -> (r: String)
    ensures
        r@ == chars@,
{
    chars.iter().collect()
}

} // verus!
