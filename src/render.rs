//! Turning pixels into the canonical icon payload: an RGBA image encoded as
//! PNG, carried as a base64 data URI.
use vstd::prelude::*;

use crate::codec::{
    base64_standard, decode_image, decoded_image, encode_base64, encode_png, lower_of, lowercase,
    png_encoding,
};
use crate::pixels::{correct_alpha_to_rgba, corrected_rgba, crop_transparent_borders, crops_to};
use crate::text::str_eq;
use crate::types::{well_formed_icon, ExtractError, IconData, ImageFormatKind, RgbaImage};

verus! {

/// A data URI of the given media type around base64 text.
pub open spec fn data_uri(media: Seq<char>, b64: Seq<char>) -> Seq<char> {
    "data:"@ + media + ";base64,"@ + b64
}

/// `img` has the given dimensions and bytes.
pub open spec fn image_is(img: RgbaImage, width: u32, height: u32, data: Seq<u8>) -> bool {
    img.width == width && img.height == height && img.data@ == data
}

/// `r` is what encoding `img` gives: its PNG as a data URI with its
/// dimensions, the refusal of an image without pixels, or the encoding failure.
pub open spec fn encodes_to(img: RgbaImage, r: Result<IconData, ExtractError>) -> bool {
    if img.width == 0 || img.height == 0 {
        r == Err::<IconData, ExtractError>(ExtractError::EmptyImage)
    } else {
        match png_encoding(img.width, img.height, img.data@) {
            None => r == Err::<IconData, ExtractError>(ExtractError::EncodeFailed),
            Some(png) => r matches Ok(d) && d.base64@ == data_uri(
                "image/png"@,
                base64_standard(png),
            ) && d.width == img.width && d.height == img.height,
        }
    }
}

/// `fin` is `src` cropped when `crop` is asked for, else `src` itself.
pub open spec fn finished(src: RgbaImage, crop: bool, fin: RgbaImage) -> bool {
    if crop {
        crops_to(src, fin)
    } else {
        image_is(fin, src.width, src.height, src.data@)
    }
}

/// `r` is the payload of the `width` by `height` RGBA pixels `data`, cropped
/// when `crop` is asked for.
pub open spec fn rendered(
    width: u32,
    height: u32,
    data: Seq<u8>,
    crop: bool,
    r: Result<IconData, ExtractError>,
) -> bool {
    exists|src: RgbaImage, fin: RgbaImage|
        #![trigger finished(src, crop, fin)]
        image_is(src, width, height, data) && finished(src, crop, fin) && encodes_to(fin, r)
}

/// The format named by a lower-case format name.
pub open spec fn image_format_named(s: Seq<char>) -> Option<ImageFormatKind> {
    if s == "png"@ {
        Some(ImageFormatKind::Png)
    } else if s == "bmp"@ {
        Some(ImageFormatKind::Bmp)
    } else if s == "jpg"@ || s == "jpeg"@ {
        Some(ImageFormatKind::Jpeg)
    } else if s == "ico"@ {
        Some(ImageFormatKind::Ico)
    } else {
        None
    }
}

/// The text `"data:<media>;base64,<b64>"`.
pub(crate) fn make_data_uri(media: &str, b64: &str) -> (r: String)
    ensures
        r@ == data_uri(media@, b64@),
{
    let mut s = String::from_str("data:");
    s.append(media);
    s.append(";base64,");
    s.append(b64);
    s
}

/// Encodes an image as PNG and wraps it in a base64 data URI. An image
/// without pixels is refused.
pub fn encode_icon_data(img: &RgbaImage) -> (r: Result<IconData, ExtractError>)
    requires
        img.wf(),
    ensures
        encodes_to(*img, r),
        r matches Ok(d) ==> d.width > 0 && d.height > 0,
{
    if img.width == 0 || img.height == 0 {
        return Err(ExtractError::EmptyImage);
    }
    match encode_png(img.width, img.height, &img.data) {
        None => Err(ExtractError::EncodeFailed),
        Some(png) => {
            let b64 = encode_base64(&png);
            let uri = make_data_uri("image/png", b64.as_str());
            Ok(IconData { base64: uri, width: img.width, height: img.height })
        },
    }
}

/// Encodes `width` by `height` RGBA pixels, cropping transparent borders when
/// asked. A buffer shorter than four bytes per pixel is refused; bytes past
/// the last pixel are ignored.
pub fn process_pixel_data_to_icon_data(
    width: u32,
    height: u32,
    pixel_data: Vec<u8>,
    crop_borders: bool,
) -> (r: Result<IconData, ExtractError>)
    ensures
        4 * (width as int) * (height as int) > pixel_data@.len() ==> r == Err::<
            IconData,
            ExtractError,
        >(ExtractError::InvalidImageBuffer),
        4 * (width as int) * (height as int) <= pixel_data@.len() ==> rendered(
            width,
            height,
            pixel_data@.subrange(0, 4 * (width as int) * (height as int)),
            crop_borders,
            r,
        ),
        r matches Ok(d) ==> d.width > 0 && d.height > 0,
{
    let len = pixel_data.len();
    assert((width as int) * (height as int) <= 0xffff_ffff * 0xffff_ffff) by (nonlinear_arith)
        requires
            width <= 0xffff_ffff,
            height <= 0xffff_ffff,
    ;
    let need: u128 = (width as u128) * (height as u128) * 4;
    assert(need == 4 * (width as int) * (height as int)) by (nonlinear_arith)
        requires
            need == (width as int) * (height as int) * 4,
    ;
    if need > len as u128 {
        return Err(ExtractError::InvalidImageBuffer);
    }
    let n: usize = need as usize;
    let mut data = pixel_data;
    data.truncate(n);
    let src = RgbaImage { width, height, data };
    if crop_borders {
        let fin = crop_transparent_borders(&src);
        let r = encode_icon_data(&fin);
        assert(finished(src, crop_borders, fin));
        r
    } else {
        let r = encode_icon_data(&src);
        assert(finished(src, crop_borders, src));
        r
    }
}

/// Turns a top-down BGRA buffer read from a native icon or bitmap into the
/// payload: alpha repair, RGBA reorder, optional crop, PNG encoding.
///
/// A surface without area gives an empty payload; a buffer that is not
/// exactly four bytes per pixel is refused.
pub fn convert_bgra_to_icon_data(width: i32, height: i32, bgra: Vec<u8>, crop_borders: bool) -> (r:
    Result<IconData, ExtractError>)
    ensures
        width <= 0 || height <= 0 ==> (r matches Ok(d) && d.base64@.len() == 0 && d.width == 0
            && d.height == 0),
        width > 0 && height > 0 && bgra@.len() != 4 * (width as int) * (height as int) ==> r
            == Err::<IconData, ExtractError>(ExtractError::InvalidImageBuffer),
        width > 0 && height > 0 && bgra@.len() == 4 * (width as int) * (height as int)
            ==> rendered(width as u32, height as u32, corrected_rgba(bgra@), crop_borders, r),
        r matches Ok(d) ==> well_formed_icon(d),
{
    if width <= 0 || height <= 0 {
        return Ok(IconData { base64: String::new(), width: 0, height: 0 });
    }
    let w = width as u32;
    let h = height as u32;
    let len = bgra.len();
    assert((w as int) * (h as int) <= 0xffff_ffff * 0xffff_ffff) by (nonlinear_arith)
        requires
            w <= 0xffff_ffff,
            h <= 0xffff_ffff,
    ;
    let need: u128 = (w as u128) * (h as u128) * 4;
    assert(need == 4 * (w as int) * (h as int)) by (nonlinear_arith)
        requires
            need == (w as int) * (h as int) * 4,
    ;
    if need != len as u128 {
        return Err(ExtractError::InvalidImageBuffer);
    }
    let rgba = correct_alpha_to_rgba(&bgra);
    assert(rgba@.subrange(0, rgba@.len() as int) =~= rgba@);
    process_pixel_data_to_icon_data(w, h, rgba, crop_borders)
}

/// The image format named, ignoring case: png, bmp, jpg or jpeg, ico.
pub fn parse_image_format(format: &str) -> (r: Option<ImageFormatKind>)
    ensures
        r == image_format_named(lower_of(format@)),
{
    let lower = lowercase(format);
    let s = lower.as_str();
    proof {
        reveal_strlit("png");
        reveal_strlit("bmp");
        reveal_strlit("jpg");
        reveal_strlit("jpeg");
        reveal_strlit("ico");
    }
    if str_eq(s, "png") {
        Some(ImageFormatKind::Png)
    } else if str_eq(s, "bmp") {
        Some(ImageFormatKind::Bmp)
    } else if str_eq(s, "jpg") || str_eq(s, "jpeg") {
        Some(ImageFormatKind::Jpeg)
    } else if str_eq(s, "ico") {
        Some(ImageFormatKind::Ico)
    } else {
        None
    }
}

/// Decodes an encoded image of a known format, crops it when asked, and
/// re-encodes it as the canonical PNG payload.
pub fn reencode_image(image_data: &[u8], kind: ImageFormatKind, crop_borders: bool) -> (r: Result<
    IconData,
    ExtractError,
>)
    ensures
        match decoded_image(kind, image_data@) {
            None => r == Err::<IconData, ExtractError>(ExtractError::DecodeFailed),
            Some(d) => rendered(d.0, d.1, d.2, crop_borders, r),
        },
        r matches Ok(d) ==> d.width > 0 && d.height > 0,
{
    let src = match decode_image(image_data, kind) {
        Some(img) => img,
        None => return Err(ExtractError::DecodeFailed),
    };
    if crop_borders {
        let fin = crop_transparent_borders(&src);
        let r = encode_icon_data(&fin);
        assert(finished(src, crop_borders, fin));
        r
    } else {
        let r = encode_icon_data(&src);
        assert(finished(src, crop_borders, src));
        r
    }
}

/// Decodes an encoded image of the named format, crops it when asked, and
/// re-encodes it as the canonical PNG payload.
pub fn process_image_data(image_data: &[u8], format: &str, crop_borders: bool) -> (r: Result<
    IconData,
    ExtractError,
>)
    ensures
        match image_format_named(lower_of(format@)) {
            None => r == Err::<IconData, ExtractError>(ExtractError::UnsupportedFormat),
            Some(f) => match decoded_image(f, image_data@) {
                None => r == Err::<IconData, ExtractError>(ExtractError::DecodeFailed),
                Some(d) => rendered(d.0, d.1, d.2, crop_borders, r),
            },
        },
        r matches Ok(d) ==> d.width > 0 && d.height > 0,
{
    match parse_image_format(format) {
        Some(kind) => reencode_image(image_data, kind, crop_borders),
        None => Err(ExtractError::UnsupportedFormat),
    }
}

} // verus!
