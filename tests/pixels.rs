use icon_engine::pixels::{
    classify_alpha, correct_alpha_to_rgba, crop_transparent_borders, unpremultiply_channel,
};
use icon_engine::types::RgbaImage;

#[test]
fn opaque_image_is_only_reordered() {
    let bgra = vec![10u8, 20, 30, 255, 1, 2, 3, 255, 200, 100, 50, 255];
    let rgba = correct_alpha_to_rgba(&bgra);
    assert_eq!(rgba, vec![30u8, 20, 10, 255, 3, 2, 1, 255, 50, 100, 200, 255]);
}

#[test]
fn zero_alpha_legacy_icon_becomes_opaque() {
    let bgra = vec![10u8, 20, 30, 0, 5, 6, 7, 0, 0, 0, 0, 0];
    let rgba = correct_alpha_to_rgba(&bgra);
    assert_eq!(rgba, vec![30u8, 20, 10, 255, 7, 6, 5, 255, 0, 0, 0, 255]);
    for px in rgba.chunks(4) {
        assert_eq!(px[3], 255);
    }
}

#[test]
fn premultiplied_pixels_are_unpremultiplied() {
    // b=50, g=50, r=100, a=128: every channel at most alpha, some below it.
    let bgra = vec![50u8, 50, 100, 128, 0, 0, 0, 0, 9, 9, 9, 255];
    let class = classify_alpha(&bgra);
    assert!(class.looks_premultiplied);
    assert!(!class.definitely_straight);
    assert!(class.has_alpha_content);
    assert!(!class.all_alpha_zero);
    let rgba = correct_alpha_to_rgba(&bgra);
    assert_eq!(rgba, vec![199u8, 99, 99, 128, 0, 0, 0, 0, 9, 9, 9, 255]);
}

#[test]
fn straight_evidence_blocks_unpremultiply() {
    let bgra = vec![50u8, 50, 100, 128, 10, 10, 200, 100];
    let class = classify_alpha(&bgra);
    assert!(class.looks_premultiplied);
    assert!(class.definitely_straight);
    let rgba = correct_alpha_to_rgba(&bgra);
    assert_eq!(rgba, vec![100u8, 50, 50, 128, 200, 10, 10, 100]);
}

#[test]
fn empty_buffer_classifies_as_all_zero() {
    let class = classify_alpha(&Vec::new());
    assert!(class.all_alpha_zero);
    assert!(!class.has_alpha_content);
    assert!(correct_alpha_to_rgba(&Vec::new()).is_empty());
}

#[test]
fn unpremultiply_formula_values() {
    assert_eq!(unpremultiply_channel(100, 128), 199);
    assert_eq!(unpremultiply_channel(64, 128), 127);
    assert_eq!(unpremultiply_channel(200, 100), 255);
    assert_eq!(unpremultiply_channel(0, 1), 0);
}

#[test]
fn unpremultiply_then_premultiply_round_trips() {
    for c in 0..=255u16 {
        let u = unpremultiply_channel(c as u8, 255) as u16;
        assert_eq!(u * 255 / 255, c);
    }
    for a in 1..=255u16 {
        for c in 0..=a {
            let u = unpremultiply_channel(c as u8, a as u8) as u16;
            let back = u * a / 255;
            assert!(back <= c && back + 1 >= c);
        }
    }
}

fn transparent(w: u32, h: u32) -> RgbaImage {
    RgbaImage { width: w, height: h, data: vec![0u8; (w * h * 4) as usize] }
}

#[test]
fn crop_fully_transparent_gives_single_pixel() {
    let img = transparent(64, 64);
    let r = crop_transparent_borders(&img);
    assert_eq!(r.width, 1);
    assert_eq!(r.height, 1);
    assert_eq!(r.data, vec![0u8, 0, 0, 0]);
}

#[test]
fn crop_to_visible_box() {
    let mut img = transparent(5, 4);
    let set = |img: &mut RgbaImage, x: u32, y: u32, v: [u8; 4]| {
        let i = ((y * img.width + x) * 4) as usize;
        img.data[i..i + 4].copy_from_slice(&v);
    };
    set(&mut img, 1, 1, [1, 2, 3, 4]);
    set(&mut img, 3, 2, [5, 6, 7, 8]);
    let r = crop_transparent_borders(&img);
    assert_eq!((r.width, r.height), (3, 2));
    assert_eq!(
        r.data,
        vec![1u8, 2, 3, 4, 0, 0, 0, 0, 0, 0, 0, 0, 0, 0, 0, 0, 0, 0, 0, 0, 5, 6, 7, 8]
    );
}

#[test]
fn crop_keeps_thin_images() {
    let img = transparent(1, 7);
    let r = crop_transparent_borders(&img);
    assert_eq!((r.width, r.height), (1, 7));
    assert_eq!(r.data.len(), 28);
}
