//! Pixel post-processing: alpha classification and repair, the BGRA to RGBA
//! reorder, and cropping to the bounding box of visible pixels.
use vstd::prelude::*;

use crate::types::RgbaImage;

verus! {

/// Blue component of pixel `i` of a BGRA buffer.
pub open spec fn blue(p: Seq<u8>, i: int) -> u8 {
    p[4 * i]
}

/// Green component of pixel `i` of a BGRA buffer.
pub open spec fn green(p: Seq<u8>, i: int) -> u8 {
    p[4 * i + 1]
}

/// Red component of pixel `i` of a BGRA buffer.
pub open spec fn red(p: Seq<u8>, i: int) -> u8 {
    p[4 * i + 2]
}

/// Alpha component of pixel `i` of a BGRA (or RGBA) buffer.
pub open spec fn alpha(p: Seq<u8>, i: int) -> u8 {
    p[4 * i + 3]
}

/// Number of whole pixels in a buffer.
pub open spec fn pixel_count(p: Seq<u8>) -> int {
    p.len() as int / 4
}

/// Pixel `i` is partially transparent.
pub open spec fn is_partial(p: Seq<u8>, i: int) -> bool {
    0 < alpha(p, i) < 255
}

/// Some colour channel of pixel `i` exceeds its alpha.
pub open spec fn channel_above_alpha(p: Seq<u8>, i: int) -> bool {
    red(p, i) > alpha(p, i) || green(p, i) > alpha(p, i) || blue(p, i) > alpha(p, i)
}

/// Some colour channel of pixel `i` is below its alpha.
pub open spec fn channel_below_alpha(p: Seq<u8>, i: int) -> bool {
    red(p, i) < alpha(p, i) || green(p, i) < alpha(p, i) || blue(p, i) < alpha(p, i)
}

/// Pixel `i` can only be straight alpha: a channel exceeds its alpha.
pub open spec fn shows_straight(p: Seq<u8>, i: int) -> bool {
    is_partial(p, i) && channel_above_alpha(p, i)
}

/// Pixel `i` looks premultiplied: every channel is at most its alpha, one below it.
pub open spec fn shows_premultiplied(p: Seq<u8>, i: int) -> bool {
    is_partial(p, i) && !channel_above_alpha(p, i) && channel_below_alpha(p, i)
}

/// Every pixel has alpha zero (a legacy icon without an alpha channel).
pub open spec fn alpha_all_zero(p: Seq<u8>) -> bool {
    forall|i: int| 0 <= i < pixel_count(p) ==> #[trigger] alpha(p, i) == 0
}

/// Some pixel is partially transparent.
pub open spec fn has_partial_alpha(p: Seq<u8>) -> bool {
    exists|i: int| 0 <= i < pixel_count(p) && #[trigger] is_partial(p, i)
}

/// Some pixel is evidence of straight alpha.
pub open spec fn straight_evidence(p: Seq<u8>) -> bool {
    exists|i: int| 0 <= i < pixel_count(p) && #[trigger] shows_straight(p, i)
}

/// Some pixel is evidence of premultiplied alpha.
pub open spec fn premultiplied_evidence(p: Seq<u8>) -> bool {
    exists|i: int| 0 <= i < pixel_count(p) && #[trigger] shows_premultiplied(p, i)
}

/// The buffer is classified premultiplied, with no straight-alpha evidence anywhere.
pub open spec fn unpremultiply_wanted(p: Seq<u8>) -> bool {
    premultiplied_evidence(p) && !straight_evidence(p)
}

/// `min(255, c / (a / 255))`, rounded down.
pub open spec fn unpremultiplied(c: u8, a: u8) -> u8 {
    let v = (c as int) * 255 / (a as int);
    if v > 255 {
        255
    } else {
        v as u8
    }
}

/// `c * a / 255`, rounded down: the premultiplication of a straight channel.
pub open spec fn premultiplied(c: u8, a: u8) -> u8 {
    ((c as int) * (a as int) / 255) as u8
}

/// A colour channel of pixel `i` after the alpha repair.
pub open spec fn repaired_channel(p: Seq<u8>, i: int, c: u8) -> u8 {
    if unpremultiply_wanted(p) && is_partial(p, i) {
        unpremultiplied(c, alpha(p, i))
    } else {
        c
    }
}

/// Byte `j` of the repaired buffer, in RGBA order.
pub open spec fn corrected_byte(p: Seq<u8>, j: int) -> u8 {
    let i = j / 4;
    if j % 4 == 3 {
        if alpha_all_zero(p) {
            255
        } else {
            alpha(p, i)
        }
    } else if j % 4 == 0 {
        repaired_channel(p, i, red(p, i))
    } else if j % 4 == 1 {
        repaired_channel(p, i, green(p, i))
    } else {
        repaired_channel(p, i, blue(p, i))
    }
}

/// A BGRA buffer after alpha repair and reordering to RGBA.
pub open spec fn corrected_rgba(p: Seq<u8>) -> Seq<u8> {
    Seq::new(p.len(), |j: int| corrected_byte(p, j))
}

/// A BGRA buffer reordered to RGBA, bytes otherwise untouched.
pub open spec fn reordered_rgba(p: Seq<u8>) -> Seq<u8> {
    Seq::new(
        p.len(),
        |j: int|
            if j % 4 == 0 {
                p[j + 2]
            } else if j % 4 == 2 {
                p[j - 2]
            } else {
                p[j]
            },
    )
}

/// Alpha repair changes nothing on an image that is opaque everywhere: the
/// result is the input with only its channels reordered to RGBA.
pub proof fn lemma_opaque_is_only_reordered(p: Seq<u8>)
    requires
        p.len() % 4 == 0,
        forall|i: int| 0 <= i < pixel_count(p) ==> #[trigger] alpha(p, i) == 255,
    ensures
        corrected_rgba(p) == reordered_rgba(p),
{
    if pixel_count(p) > 0 {
        assert(alpha(p, 0) == 255);
        assert(!alpha_all_zero(p));
    }
    assert forall|j: int| 0 <= j < p.len() implies #[trigger] corrected_rgba(p)[j]
        == reordered_rgba(p)[j] by {
        let i = j / 4;
        assert(0 <= i < pixel_count(p));
        assert(alpha(p, i) == 255);
        assert(j == 4 * i + j % 4);
        if pixel_count(p) == 0 {
            assert(false);
        }
    }
    assert(corrected_rgba(p) =~= reordered_rgba(p));
}

/// A legacy buffer whose alpha is zero everywhere comes out fully opaque.
pub proof fn lemma_zero_alpha_becomes_opaque(p: Seq<u8>)
    requires
        p.len() % 4 == 0,
        alpha_all_zero(p),
    ensures
        forall|i: int| 0 <= i < pixel_count(p) ==> #[trigger] alpha(corrected_rgba(p), i) == 255,
{
    assert forall|i: int| 0 <= i < pixel_count(p) implies #[trigger] alpha(corrected_rgba(p), i)
        == 255 by {
        assert((4 * i + 3) % 4 == 3);
        assert(corrected_byte(p, 4 * i + 3) == 255);
    }
}

/// Unpremultiplying a channel that is at most its alpha and premultiplying it
/// again gives the channel back, or one less.
pub proof fn lemma_unpremultiply_round_trip(c: u8, a: u8)
    requires
        0 < a,
        c <= a,
    ensures
        c - 1 <= premultiplied(unpremultiplied(c, a), a) <= c,
{
    let ci = c as int;
    let ai = a as int;
    let u = ci * 255 / ai;
    assert(u <= 255) by (nonlinear_arith)
        requires
            0 < ai,
            0 <= ci <= ai,
            u == ci * 255 / ai,
    ;
    assert(0 <= u) by (nonlinear_arith)
        requires
            0 < ai,
            0 <= ci,
            u == ci * 255 / ai,
    ;
    assert(unpremultiplied(c, a) == u);
    assert(u * ai <= ci * 255 && u * ai > ci * 255 - ai) by (nonlinear_arith)
        requires
            0 < ai,
            0 <= ci,
            u == ci * 255 / ai,
    ;
    let v = u * ai / 255;
    assert(ci - 1 <= v <= ci) by (nonlinear_arith)
        requires
            u * ai <= ci * 255,
            u * ai > ci * 255 - ai,
            ai <= 255,
            v == u * ai / 255,
            0 <= u,
    ;
    assert(0 <= v <= 255);
}

/// On a fully opaque pixel unpremultiplying and premultiplying again is exact.
pub proof fn lemma_opaque_round_trip(c: u8)
    ensures
        premultiplied(unpremultiplied(c, 255), 255) == c,
{
    lemma_unpremultiply_round_trip(c, 255);
    assert(unpremultiplied(c, 255) == c);
}

/// The global evidence gathered over a BGRA buffer.
#[derive(Clone, Copy, Debug, PartialEq, Eq, Structural)]
pub struct AlphaClass {
    pub all_alpha_zero: bool,
    pub has_alpha_content: bool,
    pub definitely_straight: bool,
    pub looks_premultiplied: bool,
}

/// Scans every pixel once and reports the evidence on how its alpha is stored.
pub fn classify_alpha(bgra: &Vec<u8>) -> (r: AlphaClass)
    requires
        bgra@.len() % 4 == 0,
    ensures
        r.all_alpha_zero == alpha_all_zero(bgra@),
        r.has_alpha_content == has_partial_alpha(bgra@),
        r.definitely_straight == straight_evidence(bgra@),
        r.looks_premultiplied == premultiplied_evidence(bgra@),
{
    let ghost p = bgra@;
    let n: usize = bgra.len() / 4;
    let mut all_zero = true;
    let mut partial = false;
    let mut straight = false;
    let mut premul = false;
    let mut i: usize = 0;
    while i < n
        invariant
            p == bgra@,
            n == pixel_count(p),
            p.len() == 4 * n,
            i <= n,
            all_zero == (forall|k: int| 0 <= k < i ==> #[trigger] alpha(p, k) == 0),
            partial == (exists|k: int| 0 <= k < i && #[trigger] is_partial(p, k)),
            straight == (exists|k: int| 0 <= k < i && #[trigger] shows_straight(p, k)),
            premul == (exists|k: int| 0 <= k < i && #[trigger] shows_premultiplied(p, k)),
        decreases n - i,
    {
        assert(4 * i + 3 < bgra.len());
        let base: usize = 4 * i;
        let b = bgra[base];
        let g = bgra[base + 1];
        let r = bgra[base + 2];
        let a = bgra[base + 3];
        assert(b == blue(p, i as int) && g == green(p, i as int) && r == red(p, i as int) && a
            == alpha(p, i as int));
        if a > 0 {
            all_zero = false;
            if a < 255 {
                partial = true;
                if r > a || g > a || b > a {
                    straight = true;
                } else if r < a || g < a || b < a {
                    premul = true;
                }
            }
        }
        assert(is_partial(p, i as int) == (a > 0 && a < 255));
        assert(shows_straight(p, i as int) == (a > 0 && a < 255 && (r > a || g > a || b > a)));
        assert(shows_premultiplied(p, i as int) == (a > 0 && a < 255 && !(r > a || g > a || b
            > a) && (r < a || g < a || b < a)));
        i = i + 1;
    }
    AlphaClass {
        all_alpha_zero: all_zero,
        has_alpha_content: partial,
        definitely_straight: straight,
        looks_premultiplied: premul,
    }
}

/// `min(255, c / (a / 255))` for a channel `c` of a pixel with alpha `a`.
pub fn unpremultiply_channel(c: u8, a: u8) -> (r: u8)
    requires
        0 < a,
    ensures
        r == unpremultiplied(c, a),
{
    assert((c as u32) * 255 <= 255 * 255) by (nonlinear_arith)
        requires
            c <= 255,
    ;
    let v: u32 = (c as u32) * 255 / (a as u32);
    if v > 255 {
        255
    } else {
        v as u8
    }
}

/// Repairs the alpha of a top-down BGRA buffer and reorders it to RGBA.
///
/// A buffer whose alpha is zero everywhere becomes fully opaque. A buffer
/// that shows premultiplied evidence and no straight evidence has every
/// partially transparent pixel unpremultiplied. Anything else is only
/// reordered.
pub fn correct_alpha_to_rgba(bgra: &Vec<u8>) -> (r: Vec<u8>)
    requires
        bgra@.len() % 4 == 0,
    ensures
        r@ == corrected_rgba(bgra@),
{
    let ghost p = bgra@;
    let class = classify_alpha(bgra);
    let unpremultiply = class.looks_premultiplied && !class.definitely_straight
        && class.has_alpha_content;
    assert(unpremultiply == unpremultiply_wanted(p));
    let n: usize = bgra.len() / 4;
    let mut out: Vec<u8> = Vec::with_capacity(bgra.len());
    let mut i: usize = 0;
    while i < n
        invariant
            p == bgra@,
            n == pixel_count(p),
            p.len() == 4 * n,
            i <= n,
            class.all_alpha_zero == alpha_all_zero(p),
            unpremultiply == unpremultiply_wanted(p),
            out@.len() == 4 * i,
            forall|j: int| 0 <= j < 4 * i ==> out@[j] == #[trigger] corrected_byte(p, j),
        decreases n - i,
    {
        assert(4 * i + 3 < bgra.len());
        let base: usize = 4 * i;
        let b = bgra[base];
        let g = bgra[base + 1];
        let r = bgra[base + 2];
        let a = bgra[base + 3];
        let ghost gi = i as int;
        assert(b == blue(p, gi) && g == green(p, gi) && r == red(p, gi) && a == alpha(p, gi));
        let mut nr = r;
        let mut ng = g;
        let mut nb = b;
        let mut na = a;
        if class.all_alpha_zero {
            na = 255;
        } else if unpremultiply && a > 0 && a < 255 {
            nr = unpremultiply_channel(r, a);
            ng = unpremultiply_channel(g, a);
            nb = unpremultiply_channel(b, a);
        }
        proof {
            if class.all_alpha_zero {
                assert(alpha(p, gi) == 0);
            }
            assert((4 * gi) / 4 == gi && (4 * gi + 1) / 4 == gi && (4 * gi + 2) / 4 == gi && (4
                * gi + 3) / 4 == gi);
            assert((4 * gi) % 4 == 0 && (4 * gi + 1) % 4 == 1 && (4 * gi + 2) % 4 == 2 && (4 * gi
                + 3) % 4 == 3);
            assert(corrected_byte(p, 4 * gi) == nr);
            assert(corrected_byte(p, 4 * gi + 1) == ng);
            assert(corrected_byte(p, 4 * gi + 2) == nb);
            assert(corrected_byte(p, 4 * gi + 3) == na);
        }
        out.push(nr);
        out.push(ng);
        out.push(nb);
        out.push(na);
        i = i + 1;
    }
    assert(out@ =~= corrected_rgba(p));
    out
}

/// Byte `k` of pixel `(x, y)` in a packed RGBA buffer of row width `w`.
pub open spec fn cell(s: Seq<u8>, w: int, x: int, y: int, k: int) -> u8 {
    s[(y * w + x) * 4 + k]
}

/// Byte `k` of pixel `(x, y)` of an image.
pub open spec fn px(img: RgbaImage, x: int, y: int, k: int) -> u8 {
    cell(img.data@, img.width as int, x, y, k)
}

/// Pixel `(x, y)` lies inside the image.
pub open spec fn in_image(img: RgbaImage, x: int, y: int) -> bool {
    0 <= x < img.width && 0 <= y < img.height
}

/// Pixel `(x, y)` lies inside the image and its alpha is not zero.
pub open spec fn visible(img: RgbaImage, x: int, y: int) -> bool {
    in_image(img, x, y) && px(img, x, y, 3) > 0
}

/// Some pixel of the image is not fully transparent.
pub open spec fn has_visible(img: RgbaImage) -> bool {
    exists|x: int, y: int| #[trigger] visible(img, x, y)
}

/// `[x0, x1] x [y0, y1]` is the smallest box holding every visible pixel.
pub open spec fn is_tight_box(img: RgbaImage, x0: int, y0: int, x1: int, y1: int) -> bool {
    &&& 0 <= x0 <= x1 < img.width
    &&& 0 <= y0 <= y1 < img.height
    &&& forall|x: int, y: int| #[trigger] visible(img, x, y) ==> x0 <= x <= x1 && y0 <= y <= y1
    &&& exists|y: int| #[trigger] visible(img, x0, y)
    &&& exists|y: int| #[trigger] visible(img, x1, y)
    &&& exists|x: int| #[trigger] visible(img, x, y0)
    &&& exists|x: int| #[trigger] visible(img, x, y1)
}

/// `r` is the part of `img` whose top-left corner is `(x0, y0)`.
pub open spec fn is_sub_image(r: RgbaImage, img: RgbaImage, x0: int, y0: int) -> bool {
    &&& r.wf()
    &&& x0 + r.width <= img.width
    &&& y0 + r.height <= img.height
    &&& forall|x: int, y: int, k: int|
        0 <= x < r.width && 0 <= y < r.height && 0 <= k < 4 ==> #[trigger] px(r, x, y, k) == px(
            img,
            x0 + x,
            y0 + y,
            k,
        )
}

/// `r` is `img` cropped to the bounding box of its visible pixels; an image
/// with a side of at most one pixel stays as it is, and a fully transparent
/// one becomes a single transparent pixel.
pub open spec fn crops_to(img: RgbaImage, r: RgbaImage) -> bool {
    if img.width <= 1 || img.height <= 1 {
        r.width == img.width && r.height == img.height && r.data@ == img.data@
    } else if !has_visible(img) {
        r.width == 1 && r.height == 1 && r.data@ == seq![0u8, 0u8, 0u8, 0u8]
    } else {
        exists|x0: int, y0: int, x1: int, y1: int|
            #![trigger is_tight_box(img, x0, y0, x1, y1)]
            is_tight_box(img, x0, y0, x1, y1) && r.width == x1 - x0 + 1 && r.height == y1 - y0 + 1
                && is_sub_image(r, img, x0, y0)
    }
}

proof fn lemma_pixel_index(x: int, y: int, w: int, h: int)
    requires
        0 <= x < w,
        0 <= y < h,
    ensures
        0 <= y * w <= y * w + x < w * h,
        (y * w + x) * 4 + 3 < 4 * w * h,
{
    assert(y * w + x < w * h) by (nonlinear_arith)
        requires
            0 <= x < w,
            0 <= y < h,
    ;
    assert(0 <= y * w) by (nonlinear_arith)
        requires
            0 <= x < w,
            0 <= y < h,
    ;
    assert((y * w + x) * 4 + 3 < 4 * w * h) by (nonlinear_arith)
        requires
            y * w + x < w * h,
    ;
}

proof fn lemma_row_major_order(xx: int, yy: int, x: int, y: int, w: int)
    requires
        0 <= xx < w,
        0 <= x <= w,
        0 <= yy,
        yy < y || (yy == y && xx < x),
    ensures
        yy * w + xx < y * w + x,
{
    if yy < y {
        assert(yy * w + xx < y * w + x) by (nonlinear_arith)
            requires
                0 <= xx < w,
                0 <= x,
                yy < y,
                0 <= yy,
        ;
    }
}

/// Crops an image to the bounding box of its pixels whose alpha is not zero.
///
/// An image with a side of at most one pixel is returned as it is; a fully
/// transparent image becomes a single transparent pixel.
pub fn crop_transparent_borders(img: &RgbaImage) -> (r: RgbaImage)
    requires
        img.wf(),
    ensures
        r.wf(),
        crops_to(*img, r),
{
    let w = img.width;
    let h = img.height;
    if w <= 1 || h <= 1 {
        return RgbaImage { width: w, height: h, data: img.data.clone() };
    }
    let total: usize = img.data.len();
    let ghost g = *img;
    let ghost wi = w as int;
    let ghost hi = h as int;
    let mut found = false;
    let mut min_x: u32 = 0;
    let mut max_x: u32 = 0;
    let mut min_y: u32 = 0;
    let mut max_y: u32 = 0;
    let ghost mut wy_min_x: int = 0;
    let ghost mut wy_max_x: int = 0;
    let ghost mut wx_min_y: int = 0;
    let ghost mut wx_max_y: int = 0;
    let mut y: u32 = 0;
    while y < h
        invariant
            g == *img,
            g.wf(),
            total == g.data@.len(),
            wi == w && hi == h,
            w == img.width && h == img.height,
            y <= h,
            found == (exists|xx: int, yy: int| 0 <= yy < y && #[trigger] visible(g, xx, yy)),
            forall|xx: int, yy: int|
                0 <= yy < y && #[trigger] visible(g, xx, yy) ==> min_x <= xx <= max_x && min_y
                    <= yy <= max_y,
            found ==> min_x <= max_x < w && min_y <= max_y < h,
            found ==> visible(g, min_x as int, wy_min_x) && visible(g, max_x as int, wy_max_x)
                && visible(g, wx_min_y, min_y as int) && visible(g, wx_max_y, max_y as int),
        decreases h - y,
    {
        let mut x: u32 = 0;
        while x < w
            invariant
                g == *img,
                g.wf(),
                total == g.data@.len(),
                wi == w && hi == h,
                w == img.width && h == img.height,
                y < h,
                x <= w,
                found == (exists|xx: int, yy: int|
                    (0 <= yy < y || (yy == y && xx < x)) && #[trigger] visible(g, xx, yy)),
                forall|xx: int, yy: int|
                    (0 <= yy < y || (yy == y && xx < x)) && #[trigger] visible(g, xx, yy)
                        ==> min_x <= xx <= max_x && min_y <= yy <= max_y,
                found ==> min_x <= max_x < w && min_y <= max_y < h,
                found ==> visible(g, min_x as int, wy_min_x) && visible(g, max_x as int, wy_max_x)
                    && visible(g, wx_min_y, min_y as int) && visible(g, wx_max_y, max_y as int),
            decreases w - x,
        {
            proof {
                lemma_pixel_index(x as int, y as int, wi, hi);
            }
            let idx: usize = ((y as usize) * (w as usize) + (x as usize)) * 4 + 3;
            let a = img.data[idx];
            assert(a == px(g, x as int, y as int, 3));
            if a > 0 {
                if !found {
                    min_x = x;
                    max_x = x;
                    min_y = y;
                    max_y = y;
                    proof {
                        wy_min_x = y as int;
                        wy_max_x = y as int;
                        wx_min_y = x as int;
                        wx_max_y = x as int;
                    }
                    found = true;
                } else {
                    if x < min_x {
                        min_x = x;
                        proof {
                            wy_min_x = y as int;
                        }
                    }
                    if x > max_x {
                        max_x = x;
                        proof {
                            wy_max_x = y as int;
                        }
                    }
                    if y > max_y {
                        max_y = y;
                        proof {
                            wx_max_y = x as int;
                        }
                    }
                }
                assert(visible(g, x as int, y as int));
            } else {
                assert(!visible(g, x as int, y as int));
            }
            x = x + 1;
        }
        y = y + 1;
    }
    if !found {
        let mut empty: Vec<u8> = Vec::new();
        empty.push(0);
        empty.push(0);
        empty.push(0);
        empty.push(0);
        assert(!has_visible(g)) by {
            assert forall|xx: int, yy: int| !visible(g, xx, yy) by {
                if visible(g, xx, yy) {
                    assert(0 <= yy < h);
                }
            }
        }
        assert(empty@ =~= seq![0u8, 0u8, 0u8, 0u8]);
        return RgbaImage { width: 1, height: 1, data: empty };
    }
    let cw: u32 = max_x - min_x + 1;
    let ch: u32 = max_y - min_y + 1;
    let ghost cwi = cw as int;
    let ghost chi = ch as int;
    let ghost x0 = min_x as int;
    let ghost y0 = min_y as int;
    let mut out: Vec<u8> = Vec::new();
    let mut yy: u32 = 0;
    while yy < ch
        invariant
            g == *img,
            g.wf(),
            total == g.data@.len(),
            wi == w && hi == h,
            w == img.width && h == img.height,
            cwi == cw && chi == ch && x0 == min_x && y0 == min_y,
            min_x + cw <= w && min_y + ch <= h,
            0 < cw && 0 < ch,
            yy <= ch,
            out@.len() == 4 * (yy * cwi),
            forall|px_: int, py: int, k: int|
                0 <= px_ < cwi && 0 <= py < yy && 0 <= k < 4 ==> #[trigger] cell(
                    out@,
                    cwi,
                    px_,
                    py,
                    k,
                ) == px(g, x0 + px_, y0 + py, k),
        decreases ch - yy,
    {
        let mut xx: u32 = 0;
        while xx < cw
            invariant
                g == *img,
                g.wf(),
                total == g.data@.len(),
                wi == w && hi == h,
                w == img.width && h == img.height,
                cwi == cw && chi == ch && x0 == min_x && y0 == min_y,
                min_x + cw <= w && min_y + ch <= h,
                0 < cw && 0 < ch,
                yy < ch,
                xx <= cw,
                out@.len() == 4 * (yy * cwi + xx),
                forall|px_: int, py: int, k: int|
                    0 <= px_ < cwi && 0 <= py && (py < yy || (py == yy && px_ < xx)) && 0 <= k < 4
                        ==> #[trigger] cell(out@, cwi, px_, py, k) == px(g, x0 + px_, y0 + py, k),
            decreases cw - xx,
        {
            let sx: u32 = min_x + xx;
            let sy: u32 = min_y + yy;
            proof {
                lemma_pixel_index(sx as int, sy as int, wi, hi);
                lemma_pixel_index(xx as int, yy as int, cwi, chi);
            }
            let base: usize = ((sy as usize) * (w as usize) + (sx as usize)) * 4;
            let ghost before = out@;
            out.push(img.data[base]);
            out.push(img.data[base + 1]);
            out.push(img.data[base + 2]);
            out.push(img.data[base + 3]);
            proof {
                let here = (yy as int) * cwi + (xx as int);
                assert forall|px_: int, py: int, k: int|
                    0 <= px_ < cwi && 0 <= py && (py < yy || (py == yy && px_ < xx + 1)) && 0 <= k
                        < 4 implies #[trigger] cell(out@, cwi, px_, py, k) == px(
                    g,
                    x0 + px_,
                    y0 + py,
                    k,
                ) by {
                    if py == yy && px_ == xx {
                        assert((py * cwi + px_) * 4 + k == 4 * here + k);
                    } else {
                        lemma_row_major_order(px_, py, xx as int, yy as int, cwi);
                        assert((py * cwi + px_) * 4 + k < 4 * here) by (nonlinear_arith)
                            requires
                                py * cwi + px_ < here,
                                0 <= k < 4,
                        ;
                        assert(cell(before, cwi, px_, py, k) == px(g, x0 + px_, y0 + py, k));
                    }
                }
            }
            xx = xx + 1;
        }
        proof {
            assert(4 * ((yy as int) * cwi + cwi) == 4 * (((yy + 1) as int) * cwi)) by (
            nonlinear_arith);
        }
        yy = yy + 1;
    }
    let r = RgbaImage { width: cw, height: ch, data: out };
    proof {
        assert(4 * (chi * cwi) == 4 * cwi * chi) by (nonlinear_arith);
        assert(has_visible(g)) by {
            assert(visible(g, min_x as int, wy_min_x));
        }
        assert forall|x: int, y: int| #[trigger] visible(g, x, y) implies x0 <= x <= max_x && y0
            <= y <= max_y by {
            assert(0 <= y < h);
        }
        assert(is_tight_box(g, x0, y0, max_x as int, max_y as int));
        assert forall|x: int, y: int, k: int|
            0 <= x < r.width && 0 <= y < r.height && 0 <= k < 4 implies #[trigger] px(r, x, y, k)
            == px(g, x0 + x, y0 + y, k) by {
            assert(cell(out@, cwi, x, y, k) == px(g, x0 + x, y0 + y, k));
        }
        assert(is_sub_image(r, g, x0, y0));
        assert(crops_to(g, r));
    }
    r
}

} // verus!
