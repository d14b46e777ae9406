//! Header parsers for PNG and BMP data, and the direct use of such data
//! found as a module resource.
use vstd::prelude::*;

use crate::codec::{base64_standard, decoded_image, encode_base64, png_encoding};
use crate::render::{data_uri, make_data_uri, reencode_image, rendered};
use crate::types::{ExtractError, IconData, ImageFormatKind};

verus! {

/// The eight bytes that open every PNG file.
pub open spec fn png_signature() -> Seq<u8> {
    seq![0x89u8, 0x50u8, 0x4eu8, 0x47u8, 0x0du8, 0x0au8, 0x1au8, 0x0au8]
}

/// The data opens with the PNG signature.
pub open spec fn has_png_signature(b: Seq<u8>) -> bool {
    b.len() >= 8 && b.subrange(0, 8) == png_signature()
}

/// The data opens with the BMP signature `BM`.
pub open spec fn has_bmp_signature(b: Seq<u8>) -> bool {
    b.len() >= 2 && b[0] == 0x42u8 && b[1] == 0x4du8
}

/// The big-endian 32-bit number at offset `o`.
pub open spec fn be_u32(b: Seq<u8>, o: int) -> int {
    b[o] as int * 0x100_0000 + b[o + 1] as int * 0x1_0000 + b[o + 2] as int * 0x100 + b[o + 3] as int
}

/// The little-endian 32-bit number at offset `o`.
pub open spec fn le_u32(b: Seq<u8>, o: int) -> int {
    b[o + 3] as int * 0x100_0000 + b[o + 2] as int * 0x1_0000 + b[o + 1] as int * 0x100 + b[o] as int
}

/// The magnitude of the little-endian signed 32-bit number at offset `o`.
pub open spec fn le_i32_magnitude(b: Seq<u8>, o: int) -> int {
    let v = le_u32(b, o);
    if v >= 0x8000_0000 {
        0x1_0000_0000 - v
    } else {
        v
    }
}

/// Width and height read from a PNG header, or why they cannot be.
pub open spec fn png_dimensions_of(b: Seq<u8>) -> Result<(u32, u32), ExtractError> {
    if b.len() < 24 {
        Err(ExtractError::TooShort)
    } else if !has_png_signature(b) {
        Err(ExtractError::BadSignature)
    } else if !(b[12] == 0x49u8 && b[13] == 0x48u8 && b[14] == 0x44u8 && b[15] == 0x52u8) {
        Err(ExtractError::BadHeader)
    } else {
        Ok((be_u32(b, 16) as u32, be_u32(b, 20) as u32))
    }
}

/// Width and height read from a BMP header, the height taken without its
/// sign, or why they cannot be.
pub open spec fn bmp_dimensions_of(b: Seq<u8>) -> Result<(u32, u32), ExtractError> {
    if b.len() < 26 {
        Err(ExtractError::TooShort)
    } else if !has_bmp_signature(b) {
        Err(ExtractError::BadSignature)
    } else {
        Ok((le_u32(b, 18) as u32, le_i32_magnitude(b, 22) as u32))
    }
}

fn read_be_u32(b: &[u8], o: usize) -> (r: u32)
    requires
        o + 4 <= b@.len(),
    ensures
        r == be_u32(b@, o as int),
{
    (b[o] as u32) * 0x100_0000 + (b[o + 1] as u32) * 0x1_0000 + (b[o + 2] as u32) * 0x100 + (b[o
        + 3] as u32)
}

fn read_le_u32(b: &[u8], o: usize) -> (r: u32)
    requires
        o + 4 <= b@.len(),
    ensures
        r == le_u32(b@, o as int),
{
    let n = b.len();
    assert(o + 3 < n);
    (b[o + 3] as u32) * 0x100_0000 + (b[o + 2] as u32) * 0x1_0000 + (b[o + 1] as u32) * 0x100 + (b[o]
        as u32)
}

fn starts_with_png_signature(b: &[u8]) -> (r: bool)
    requires
        b@.len() >= 8,
    ensures
        r == has_png_signature(b@),
{
    let r = b[0] == 0x89 && b[1] == 0x50 && b[2] == 0x4e && b[3] == 0x47 && b[4] == 0x0d && b[5]
        == 0x0a && b[6] == 0x1a && b[7] == 0x0a;
    proof {
        if r {
            assert(b@.subrange(0, 8) =~= png_signature());
        } else {
            if b@.subrange(0, 8) == png_signature() {
                assert(b@.subrange(0, 8)[0] == b@[0]);
                assert(b@.subrange(0, 8)[1] == b@[1]);
                assert(b@.subrange(0, 8)[2] == b@[2]);
                assert(b@.subrange(0, 8)[3] == b@[3]);
                assert(b@.subrange(0, 8)[4] == b@[4]);
                assert(b@.subrange(0, 8)[5] == b@[5]);
                assert(b@.subrange(0, 8)[6] == b@[6]);
                assert(b@.subrange(0, 8)[7] == b@[7]);
            }
        }
    }
    r
}

/// Reads width and height from the IHDR chunk of PNG data, without decoding it.
pub fn parse_png_dimensions(png_data: &[u8]) -> (r: Result<(u32, u32), ExtractError>)
    ensures
        r == png_dimensions_of(png_data@),
{
    if png_data.len() < 24 {
        return Err(ExtractError::TooShort);
    }
    if !starts_with_png_signature(png_data) {
        return Err(ExtractError::BadSignature);
    }
    if !(png_data[12] == 0x49 && png_data[13] == 0x48 && png_data[14] == 0x44 && png_data[15]
        == 0x52) {
        return Err(ExtractError::BadHeader);
    }
    Ok((read_be_u32(png_data, 16), read_be_u32(png_data, 20)))
}

/// Reads width and height from the header of BMP data, without decoding it.
/// A negative height (a top-down bitmap) is reported by its magnitude.
pub fn parse_bmp_dimensions(bmp_data: &[u8]) -> (r: Result<(u32, u32), ExtractError>)
    ensures
        r == bmp_dimensions_of(bmp_data@),
{
    if bmp_data.len() < 26 {
        return Err(ExtractError::TooShort);
    }
    if !(bmp_data[0] == 0x42 && bmp_data[1] == 0x4d) {
        return Err(ExtractError::BadSignature);
    }
    let width = read_le_u32(bmp_data, 18);
    let raw = read_le_u32(bmp_data, 22);
    let height: u32 = if raw >= 0x8000_0000 {
        (0x1_0000_0000u64 - raw as u64) as u32
    } else {
        raw
    };
    Ok((width, height))
}

/// What re-encoding decodable data gives: the PNG data URI and dimensions,
/// when the codec decodes and encodes it.
pub open spec fn reencoded(kind: ImageFormatKind, data: Seq<u8>) -> Option<(Seq<char>, u32, u32)> {
    match decoded_image(kind, data) {
        None => None,
        Some(d) => if d.0 == 0 || d.1 == 0 {
            None
        } else {
            match png_encoding(d.0, d.1, d.2) {
                None => None,
                Some(png) => Some((data_uri("image/png"@, base64_standard(png)), d.0, d.1)),
            }
        },
    }
}

/// The payload made from resource data of a format: the re-encoded image when
/// the codec handles it, else the bytes themselves as a data URI of their own
/// media type with the dimensions of their header; a header that gives a zero
/// side is refused.
pub open spec fn resource_icon(
    kind: ImageFormatKind,
    media: Seq<char>,
    dims: Result<(u32, u32), ExtractError>,
    data: Seq<u8>,
    r: Result<IconData, ExtractError>,
) -> bool {
    match reencoded(kind, data) {
        Some(t) => r matches Ok(d) && d.base64@ == t.0 && d.width == t.1 && d.height == t.2,
        None => match dims {
            Err(e) => r == Err::<IconData, ExtractError>(e),
            Ok(wh) => if wh.0 == 0 || wh.1 == 0 {
                r == Err::<IconData, ExtractError>(ExtractError::EmptyImage)
            } else {
                r matches Ok(d) && d.base64@ == data_uri(media, base64_standard(data)) && d.width
                    == wh.0 && d.height == wh.1
            },
        },
    }
}

proof fn lemma_reencoded(kind: ImageFormatKind, data: Seq<u8>, r: Result<IconData, ExtractError>)
    requires
        match decoded_image(kind, data) {
            None => r == Err::<IconData, ExtractError>(ExtractError::DecodeFailed),
            Some(d) => rendered(d.0, d.1, d.2, false, r),
        },
    ensures
        r is Ok <==> reencoded(kind, data) is Some,
        r matches Ok(d) ==> reencoded(kind, data) == Some((d.base64@, d.width, d.height)),
{
}

/// Uses PNG or BMP data found as a module resource: re-encoded when the codec
/// handles it, else passed through with the dimensions of its header.
/// Data of neither kind gives `None`.
pub fn icon_from_resource_data(data: &Vec<u8>) -> (r: Option<Result<IconData, ExtractError>>)
    ensures
        has_png_signature(data@) ==> (r matches Some(x) && resource_icon(
            ImageFormatKind::Png,
            "image/png"@,
            png_dimensions_of(data@),
            data@,
            x,
        )),
        !has_png_signature(data@) && has_bmp_signature(data@) ==> (r matches Some(x)
            && resource_icon(
            ImageFormatKind::Bmp,
            "image/bmp"@,
            bmp_dimensions_of(data@),
            data@,
            x,
        )),
        !has_png_signature(data@) && !has_bmp_signature(data@) ==> r is None,
        r matches Some(Ok(d)) ==> d.width > 0 && d.height > 0,
{
    let bytes = data.as_slice();
    if bytes.len() >= 8 && starts_with_png_signature(bytes) {
        let first = reencode_image(bytes, ImageFormatKind::Png, false);
        proof {
            lemma_reencoded(ImageFormatKind::Png, data@, first);
        }
        if first.is_ok() {
            return Some(first);
        }
        return Some(
            match parse_png_dimensions(bytes) {
                Err(e) => Err(e),
                Ok((w, h)) => {
                    if w == 0 || h == 0 {
                        Err(ExtractError::EmptyImage)
                    } else {
                        let b64 = encode_base64(data);
                        Ok(
                            IconData {
                                base64: make_data_uri("image/png", b64.as_str()),
                                width: w,
                                height: h,
                            },
                        )
                    }
                },
            },
        );
    }
    if bytes.len() >= 2 && bytes[0] == 0x42 && bytes[1] == 0x4d {
        let first = reencode_image(bytes, ImageFormatKind::Bmp, false);
        proof {
            lemma_reencoded(ImageFormatKind::Bmp, data@, first);
        }
        if first.is_ok() {
            return Some(first);
        }
        return Some(
            match parse_bmp_dimensions(bytes) {
                Err(e) => Err(e),
                Ok((w, h)) => {
                    if w == 0 || h == 0 {
                        Err(ExtractError::EmptyImage)
                    } else {
                        let b64 = encode_base64(data);
                        Ok(
                            IconData {
                                base64: make_data_uri("image/bmp", b64.as_str()),
                                width: w,
                                height: h,
                            },
                        )
                    }
                },
            },
        );
    }
    None
}

} // verus!
