use base64::Engine;
use icon_engine::formats::{icon_from_resource_data, parse_bmp_dimensions, parse_png_dimensions};
use icon_engine::render::{
    convert_bgra_to_icon_data, encode_icon_data, parse_image_format, process_image_data,
    process_pixel_data_to_icon_data,
};
use icon_engine::types::{ExtractError, ImageFormatKind, RgbaImage};

const PREFIX: &str = "data:image/png;base64,";

fn decode_payload(uri: &str) -> image::RgbaImage {
    assert!(uri.starts_with(PREFIX));
    let bytes = base64::engine::general_purpose::STANDARD
        .decode(&uri[PREFIX.len()..])
        .unwrap();
    image::load_from_memory_with_format(&bytes, image::ImageFormat::Png)
        .unwrap()
        .to_rgba8()
}

fn png_bytes(w: u32, h: u32, rgba: Vec<u8>) -> Vec<u8> {
    let img: image::RgbaImage = image::ImageBuffer::from_raw(w, h, rgba).unwrap();
    let mut out = Vec::new();
    img.write_to(&mut std::io::Cursor::new(&mut out), image::ImageFormat::Png)
        .unwrap();
    out
}

#[test]
fn encoded_payload_decodes_to_same_pixels() {
    let img = RgbaImage { width: 2, height: 1, data: vec![1, 2, 3, 255, 4, 5, 6, 128] };
    let d = encode_icon_data(&img).unwrap();
    assert_eq!((d.width, d.height), (2, 1));
    let back = decode_payload(&d.base64);
    assert_eq!(back.into_raw(), vec![1u8, 2, 3, 255, 4, 5, 6, 128]);
}

#[test]
fn pixel_data_too_short_is_refused() {
    let r = process_pixel_data_to_icon_data(2, 2, vec![0u8; 15], false);
    assert_eq!(r.unwrap_err(), ExtractError::InvalidImageBuffer);
}

#[test]
fn pixel_data_extra_bytes_are_ignored_and_crop_applies() {
    let mut data = vec![0u8; 4 * 4 * 4];
    data[(1 * 4 + 2) * 4 + 3] = 255;
    data.extend_from_slice(&[9, 9, 9, 9]);
    let d = process_pixel_data_to_icon_data(4, 4, data, true).unwrap();
    assert_eq!((d.width, d.height), (1, 1));
    assert_eq!(decode_payload(&d.base64).into_raw(), vec![0u8, 0, 0, 255]);
}

#[test]
fn bgra_surface_goes_through_alpha_repair() {
    let d = convert_bgra_to_icon_data(1, 1, vec![10, 20, 30, 0], false).unwrap();
    assert_eq!((d.width, d.height), (1, 1));
    assert_eq!(decode_payload(&d.base64).into_raw(), vec![30u8, 20, 10, 255]);
}

#[test]
fn bgra_surface_without_area_gives_empty_payload() {
    let d = convert_bgra_to_icon_data(0, 5, Vec::new(), false).unwrap();
    assert!(d.base64.is_empty());
    assert_eq!((d.width, d.height), (0, 0));
}

#[test]
fn bgra_surface_of_wrong_length_is_refused() {
    let r = convert_bgra_to_icon_data(2, 2, vec![0u8; 12], false);
    assert_eq!(r.unwrap_err(), ExtractError::InvalidImageBuffer);
}

#[test]
fn image_format_names_ignore_case() {
    assert_eq!(parse_image_format("PNG"), Some(ImageFormatKind::Png));
    assert_eq!(parse_image_format("Jpeg"), Some(ImageFormatKind::Jpeg));
    assert_eq!(parse_image_format("jpg"), Some(ImageFormatKind::Jpeg));
    assert_eq!(parse_image_format("ico"), Some(ImageFormatKind::Ico));
    assert_eq!(parse_image_format("bmp"), Some(ImageFormatKind::Bmp));
    assert_eq!(parse_image_format("gif"), None);
}

#[test]
fn process_image_data_reencodes_and_crops() {
    let mut rgba = vec![0u8; 3 * 3 * 4];
    rgba[(1 * 3 + 1) * 4..(1 * 3 + 1) * 4 + 4].copy_from_slice(&[7, 8, 9, 200]);
    let png = png_bytes(3, 3, rgba);
    let full = process_image_data(&png, "png", false).unwrap();
    assert_eq!((full.width, full.height), (3, 3));
    let cropped = process_image_data(&png, "PNG", true).unwrap();
    assert_eq!((cropped.width, cropped.height), (1, 1));
    assert_eq!(decode_payload(&cropped.base64).into_raw(), vec![7u8, 8, 9, 200]);
}

#[test]
fn process_image_data_errors() {
    assert_eq!(process_image_data(&[1, 2, 3], "gif", false).unwrap_err(), ExtractError::UnsupportedFormat);
    assert_eq!(process_image_data(&[1, 2, 3], "png", false).unwrap_err(), ExtractError::DecodeFailed);
}

fn png_header(w: u32, h: u32) -> Vec<u8> {
    let mut v = vec![0x89u8, b'P', b'N', b'G', 0x0d, 0x0a, 0x1a, 0x0a, 0, 0, 0, 13];
    v.extend_from_slice(b"IHDR");
    v.extend_from_slice(&w.to_be_bytes());
    v.extend_from_slice(&h.to_be_bytes());
    v
}

#[test]
fn png_dimensions_from_header() {
    assert_eq!(parse_png_dimensions(&png_header(300, 0x0102_0304)).unwrap(), (300, 0x0102_0304));
    assert_eq!(parse_png_dimensions(&png_header(1, 1)[..23]).unwrap_err(), ExtractError::TooShort);
    let mut bad = png_header(1, 1);
    bad[1] = b'Q';
    assert_eq!(parse_png_dimensions(&bad).unwrap_err(), ExtractError::BadSignature);
    let mut bad = png_header(1, 1);
    bad[12] = b'X';
    assert_eq!(parse_png_dimensions(&bad).unwrap_err(), ExtractError::BadHeader);
}

fn bmp_header(w: u32, h: i32) -> Vec<u8> {
    let mut v = vec![0u8; 26];
    v[0] = b'B';
    v[1] = b'M';
    v[18..22].copy_from_slice(&w.to_le_bytes());
    v[22..26].copy_from_slice(&h.to_le_bytes());
    v
}

#[test]
fn bmp_dimensions_from_header() {
    assert_eq!(parse_bmp_dimensions(&bmp_header(40, 30)).unwrap(), (40, 30));
    assert_eq!(parse_bmp_dimensions(&bmp_header(40, -30)).unwrap(), (40, 30));
    assert_eq!(parse_bmp_dimensions(&bmp_header(1, i32::MIN)).unwrap(), (1, 0x8000_0000));
    assert_eq!(parse_bmp_dimensions(&bmp_header(1, 1)[..25]).unwrap_err(), ExtractError::TooShort);
    let mut bad = bmp_header(1, 1);
    bad[0] = b'X';
    assert_eq!(parse_bmp_dimensions(&bad).unwrap_err(), ExtractError::BadSignature);
}

#[test]
fn resource_png_is_reencoded() {
    let png = png_bytes(2, 3, vec![255u8; 24]);
    let d = icon_from_resource_data(&png).unwrap().unwrap();
    assert_eq!((d.width, d.height), (2, 3));
    assert!(d.base64.starts_with(PREFIX));
}

#[test]
fn resource_bmp_header_passes_through() {
    let data = bmp_header(16, -16);
    let d = icon_from_resource_data(&data).unwrap().unwrap();
    assert_eq!((d.width, d.height), (16, 16));
    let expected = base64::engine::general_purpose::STANDARD.encode(&data);
    assert_eq!(d.base64, format!("data:image/bmp;base64,{}", expected));
}

#[test]
fn resource_png_with_broken_header_fails() {
    let mut data = png_header(1, 1);
    data[12] = b'X';
    let r = icon_from_resource_data(&data).unwrap();
    assert_eq!(r.unwrap_err(), ExtractError::BadHeader);
}

#[test]
fn resource_of_other_kind_is_skipped() {
    assert!(icon_from_resource_data(&vec![1u8, 2, 3, 4, 5, 6, 7, 8, 9]).is_none());
    assert!(icon_from_resource_data(&Vec::new()).is_none());
}

#[test]
fn images_without_pixels_are_refused() {
    let img = RgbaImage { width: 0, height: 3, data: Vec::new() };
    assert_eq!(encode_icon_data(&img).unwrap_err(), ExtractError::EmptyImage);
    assert_eq!(process_pixel_data_to_icon_data(4, 0, Vec::new(), false).unwrap_err(), ExtractError::EmptyImage);
    let r = icon_from_resource_data(&bmp_header(0, 16)).unwrap();
    assert_eq!(r.unwrap_err(), ExtractError::EmptyImage);
    let r = icon_from_resource_data(&png_header(16, 0)).unwrap();
    assert_eq!(r.unwrap_err(), ExtractError::EmptyImage);
}
