//! Colours and pixels: the named fence colours, `#rrggbb` colours, and the
//! per-pixel arithmetic that composes the layered fence surface.

use vstd::prelude::*;
use crate::text::{chars_of, str_equal};

verus! {

/// A Windows `COLORREF`: red in the low byte, then green, then blue.
pub open spec fn colorref(red: u32, green: u32, blue: u32) -> u32 {
    red | (green << 8u32) | (blue << 16u32)
}

pub fn rgb(red: u32, green: u32, blue: u32) -> (c: u32)
    ensures
        c == colorref(red, green, blue),
{
    red | (green << 8u32) | (blue << 16u32)
}

/// For byte-sized channels the colour is `red + 256 * green + 65536 * blue`.
pub proof fn lemma_colorref_of_bytes(red: u32, green: u32, blue: u32)
    requires
        red < 256,
        green < 256,
        blue < 256,
    ensures
        colorref(red, green, blue) == red + 256 * green + 65536 * blue,
{
    assert(red < 256 && green < 256 && blue < 256 ==> (red | (green << 8u32) | (blue << 16u32))
        == red + 256 * green + 65536 * blue) by (bit_vector);
}

pub open spec fn hex_digit_value(c: char) -> Option<u32> {
    if '0' <= c && c <= '9' {
        Some((c as u32 - '0' as u32) as u32)
    } else if 'a' <= c && c <= 'f' {
        Some((c as u32 - 'a' as u32 + 10) as u32)
    } else if 'A' <= c && c <= 'F' {
        Some((c as u32 - 'A' as u32 + 10) as u32)
    } else {
        None
    }
}

/// The value of a hexadecimal digit byte.
pub fn hex_nibble(value: u8) -> (r: Option<u8>)
    ensures
        match hex_digit_value(value as char) {
            Some(v) => r == Some(v as u8),
            None => r is None,
        },
{
    if 48 <= value && value <= 57 {
        Some(value - 48)
    } else if 97 <= value && value <= 102 {
        Some(value - 97 + 10)
    } else if 65 <= value && value <= 70 {
        Some(value - 65 + 10)
    } else {
        None
    }
}

fn hex_char_value(c: char) -> (r: Option<u32>)
    ensures
        r == hex_digit_value(c),
{
    if '0' <= c && c <= '9' {
        Some(c as u32 - '0' as u32)
    } else if 'a' <= c && c <= 'f' {
        Some(c as u32 - 'a' as u32 + 10)
    } else if 'A' <= c && c <= 'F' {
        Some(c as u32 - 'A' as u32 + 10)
    } else {
        None
    }
}

pub open spec fn hex_byte(s: Seq<char>, i: int) -> Option<u32> {
    match (hex_digit_value(s[i]), hex_digit_value(s[i + 1])) {
        (Some(h), Some(l)) => Some((h * 16 + l) as u32),
        _ => None,
    }
}

/// The colour `#rrggbb` stands for, in either letter case.
pub open spec fn hex_color(s: Seq<char>) -> Option<u32> {
    if s.len() != 7 || s[0] != '#' {
        None
    } else {
        match (hex_byte(s, 1), hex_byte(s, 3), hex_byte(s, 5)) {
            (Some(r), Some(g), Some(b)) => Some(colorref(r, g, b)),
            _ => None,
        }
    }
}

fn hex_byte_exec(s: &Vec<char>, i: usize) -> (r: Option<u32>)
    requires
        i + 1 < s@.len(),
    ensures
        r == hex_byte(s@, i as int),
{
    let high = match hex_char_value(s[i]) {
        Some(v) => v,
        None => {
            return None;
        },
    };
    let len = s.len();
    assert(i + 1 < len);
    let next = i + 1;
    let low = match hex_char_value(s[next]) {
        Some(v) => v,
        None => {
            return None;
        },
    };
    Some(high * 16 + low)
}

/// Parses `#rrggbb` (hexadecimal digits in either case).
pub fn parse_hex_color(value: &str) -> (r: Option<u32>)
    ensures
        r == hex_color(value@),
{
    let s = chars_of(value);
    if s.len() != 7 || s[0] != '#' {
        return None;
    }
    let red = match hex_byte_exec(&s, 1) {
        Some(v) => v,
        None => {
            return None;
        },
    };
    let green = match hex_byte_exec(&s, 3) {
        Some(v) => v,
        None => {
            return None;
        },
    };
    let blue = match hex_byte_exec(&s, 5) {
        Some(v) => v,
        None => {
            return None;
        },
    };
    Some(rgb(red, green, blue))
}

/// The fence colour a name stands for: one of the named colours, else a
/// `#rrggbb` colour, else coral.
pub open spec fn fence_color(name: Seq<char>) -> u32 {
    if name == "sage"@ {
        colorref(106, 148, 119)
    } else if name == "butter"@ {
        colorref(211, 168, 72)
    } else if name == "sky"@ {
        colorref(91, 144, 184)
    } else if name == "lilac"@ {
        colorref(144, 116, 174)
    } else if name == "graphite"@ {
        colorref(84, 84, 88)
    } else if name == "coral"@ {
        colorref(226, 119, 99)
    } else {
        match hex_color(name) {
            Some(c) => c,
            None => colorref(226, 119, 99),
        }
    }
}

pub fn color_for_name(name: &str) -> (c: u32)
    ensures
        c == fence_color(name@),
{
    if str_equal(name, "sage") {
        rgb(106, 148, 119)
    } else if str_equal(name, "butter") {
        rgb(211, 168, 72)
    } else if str_equal(name, "sky") {
        rgb(91, 144, 184)
    } else if str_equal(name, "lilac") {
        rgb(144, 116, 174)
    } else if str_equal(name, "graphite") {
        rgb(84, 84, 88)
    } else if str_equal(name, "coral") {
        rgb(226, 119, 99)
    } else {
        match parse_hex_color(name) {
            Some(c) => c,
            None => rgb(226, 119, 99),
        }
    }
}

/// The colour of a fence's content area: the two materials, else a fence colour.
pub open spec fn content_color(name: Seq<char>) -> u32 {
    if name == "paper"@ {
        colorref(245, 239, 229)
    } else if name == "frosted"@ {
        colorref(229, 238, 241)
    } else {
        fence_color(name)
    }
}

pub fn content_color_for_name(name: &str) -> (c: u32)
    ensures
        c == content_color(name@),
{
    if str_equal(name, "paper") {
        rgb(245, 239, 229)
    } else if str_equal(name, "frosted") {
        rgb(229, 238, 241)
    } else {
        color_for_name(name)
    }
}

/// The named fence colours with their labels, in menu order.
pub fn fence_colors() -> (colors: Vec<(&'static str, &'static str)>)
    ensures
        colors@.len() == 6,
        colors@[0].0@ == "coral"@ && colors@[0].1@ == "珊瑚"@,
        colors@[1].0@ == "sage"@ && colors@[1].1@ == "鼠尾草绿"@,
        colors@[2].0@ == "butter"@ && colors@[2].1@ == "奶油黄"@,
        colors@[3].0@ == "sky"@ && colors@[3].1@ == "天空蓝"@,
        colors@[4].0@ == "lilac"@ && colors@[4].1@ == "丁香紫"@,
        colors@[5].0@ == "graphite"@ && colors@[5].1@ == "石墨灰"@,
{
    vec![
        ("coral", "珊瑚"),
        ("sage", "鼠尾草绿"),
        ("butter", "奶油黄"),
        ("sky", "天空蓝"),
        ("lilac", "丁香紫"),
        ("graphite", "石墨灰"),
    ]
}

/// `(value * alpha + 127) / 255`: a channel scaled by an alpha, rounded.
pub open spec fn scaled(value: int, alpha: int) -> int {
    (value * alpha + 127) / 255
}

pub(crate) fn scaled_exec(value: u8, alpha: u16) -> (r: u16)
    requires
        alpha <= 255,
    ensures
        r == scaled(value as int, alpha as int),
        r <= 255,
{
    assert(0 <= value * alpha + 127 <= 255 * 255 + 127) by (nonlinear_arith)
        requires
            value <= 255,
            alpha <= 255,
    ;
    assert((value * alpha + 127) / 255 <= 255) by (nonlinear_arith)
        requires
            0 <= value * alpha + 127 <= 255 * 255 + 127,
    ;
    (value as u16 * alpha + 127) / 255
}

/// A new value over an old one: the new part plus the old part that shows
/// through, at most 255.
pub open spec fn blended(source: int, old: int, inverse_alpha: int) -> int {
    let v = source + scaled(old, inverse_alpha);
    if v > 255 {
        255
    } else {
        v
    }
}

/// How opaque the content of a pixel rendered once over black and once over
/// white is: what white adds over black is background showing through.
pub open spec fn content_alpha(black: Seq<u8>, white: Seq<u8>) -> int {
    let b = 255 - (if white[0] > black[0] { white[0] - black[0] } else { 0 });
    let g = 255 - (if white[1] > black[1] { white[1] - black[1] } else { 0 });
    let r = 255 - (if white[2] > black[2] { white[2] - black[2] } else { 0 });
    let m = if b >= g { b } else { g };
    if m >= r {
        m
    } else {
        r
    }
}

/// The pixel after the reconstructed content is laid over it at
/// `surface_alpha`. A pixel with no content is left as it was.
pub open spec fn reconstructed_pixel(destination: Seq<u8>, black: Seq<u8>, white: Seq<u8>, surface_alpha: int) -> Seq<u8> {
    let a = content_alpha(black, white);
    if a == 0 {
        destination
    } else {
        destination.update(0, blended(scaled(black[0] as int, surface_alpha), destination[0] as int, 255 - a) as u8)
            .update(1, blended(scaled(black[1] as int, surface_alpha), destination[1] as int, 255 - a) as u8)
            .update(2, blended(scaled(black[2] as int, surface_alpha), destination[2] as int, 255 - a) as u8)
            .update(3, blended(scaled(a, surface_alpha), destination[3] as int, 255 - a) as u8)
    }
}

fn channel_alpha(black: u8, white: u8) -> (r: u8)
    ensures
        r == 255 - (if white > black { white - black } else { 0 }),
{
    if white > black {
        255 - (white - black)
    } else {
        255
    }
}

pub(crate) fn blend_exec(source: u16, old: u8, inverse_alpha: u16) -> (r: u8)
    requires
        source <= 255,
        inverse_alpha <= 255,
    ensures
        r == blended(source as int, old as int, inverse_alpha as int),
{
    let retained = scaled_exec(old, inverse_alpha);
    let v = source + retained;
    if v > 255 {
        255
    } else {
        v as u8
    }
}

/// Lays the content of a pixel, rendered once over black and once over
/// white, over `destination` at `surface_alpha`, removing the rendering
/// background.
pub fn composite_reconstructed_pixel(destination: &mut [u8], black: &[u8], white: &[u8], surface_alpha: u8)
    requires
        old(destination)@.len() >= 4,
        black@.len() >= 3,
        white@.len() >= 3,
    ensures
        final(destination)@ == reconstructed_pixel(old(destination)@, black@, white@, surface_alpha as int),
{
    let blue_alpha = channel_alpha(black[0], white[0]);
    let green_alpha = channel_alpha(black[1], white[1]);
    let red_alpha = channel_alpha(black[2], white[2]);
    let m = if blue_alpha >= green_alpha {
        blue_alpha
    } else {
        green_alpha
    };
    let content = if m >= red_alpha {
        m
    } else {
        red_alpha
    };
    if content == 0 {
        return;
    }
    let inverse = 255u16 - content as u16;
    let surface = surface_alpha as u16;
    let c0 = blend_exec(scaled_exec(black[0], surface), destination[0], inverse);
    destination[0] = c0;
    let c1 = blend_exec(scaled_exec(black[1], surface), destination[1], inverse);
    destination[1] = c1;
    let c2 = blend_exec(scaled_exec(black[2], surface), destination[2], inverse);
    destination[2] = c2;
    let c3 = blend_exec(scaled_exec(content, surface), destination[3], inverse);
    destination[3] = c3;
}

/// The blue, green and red bytes of a `COLORREF`, in DIB order.
pub open spec fn dib_bytes(color: u32) -> Seq<u8> {
    seq![((color >> 16u32) & 0xffu32) as u8, ((color >> 8u32) & 0xffu32) as u8, (color & 0xffu32) as u8]
}

pub fn dib_color(color: u32) -> (r: [u8; 3])
    ensures
        r@ == dib_bytes(color),
{
    let r = [((color >> 16u32) & 0xffu32) as u8, ((color >> 8u32) & 0xffu32) as u8, (color & 0xffu32) as u8];
    assert(r@ =~= dib_bytes(color));
    r
}

/// The pixel after `color` is laid over it at `alpha`.
pub open spec fn colored_pixel(destination: Seq<u8>, color: u32, alpha: int) -> Seq<u8> {
    let c = dib_bytes(color);
    destination.update(0, blended(scaled(c[0] as int, alpha), destination[0] as int, 255 - alpha) as u8)
        .update(1, blended(scaled(c[1] as int, alpha), destination[1] as int, 255 - alpha) as u8)
        .update(2, blended(scaled(c[2] as int, alpha), destination[2] as int, 255 - alpha) as u8)
        .update(3, blended(alpha, destination[3] as int, 255 - alpha) as u8)
}

pub fn composite_color_pixel(destination: &mut [u8], color: u32, alpha: u8)
    requires
        old(destination)@.len() >= 4,
    ensures
        final(destination)@ == colored_pixel(old(destination)@, color, alpha as int),
{
    let c = dib_color(color);
    let inverse = 255u16 - alpha as u16;
    let a = alpha as u16;
    let c0 = blend_exec(scaled_exec(c[0], a), destination[0], inverse);
    destination[0] = c0;
    let c1 = blend_exec(scaled_exec(c[1], a), destination[1], inverse);
    destination[1] = c1;
    let c2 = blend_exec(scaled_exec(c[2], a), destination[2], inverse);
    destination[2] = c2;
    let c3 = blend_exec(a, destination[3], inverse);
    destination[3] = c3;
}

/// Whether some whole pixel (four bytes, alpha last) has a nonzero alpha.
pub open spec fn uses_alpha(pixels: Seq<u8>) -> bool {
    exists|k: int| 0 <= k < pixels.len() / 4 && #[trigger] pixels[4 * k + 3] != 0
}

pub open spec fn is_straight_pixel(pixels: Seq<u8>, k: int) -> bool {
    let a = pixels[4 * k + 3];
    0 < a < 255 && (pixels[4 * k] > a || pixels[4 * k + 1] > a || pixels[4 * k + 2] > a)
}

/// Whether some partly transparent pixel has a colour channel above its
/// alpha, which premultiplied pixels never have.
pub open spec fn straight_alpha(pixels: Seq<u8>) -> bool {
    exists|k: int| 0 <= k < pixels.len() / 4 && #[trigger] is_straight_pixel(pixels, k)
}

/// The byte at `i` after normalising: fully transparent pixels lose their
/// colour, and straight-alpha images are premultiplied.
pub open spec fn normalized_byte(pixels: Seq<u8>, straight: bool, i: int) -> u8 {
    if i >= 4 * (pixels.len() / 4) || i % 4 == 3 {
        pixels[i]
    } else {
        let a = pixels[i - i % 4 + 3];
        if a == 0 {
            0
        } else if a < 255 && straight {
            scaled(pixels[i] as int, a as int) as u8
        } else {
            pixels[i]
        }
    }
}

/// Makes a shell bitmap premultiplied with clean transparent pixels; returns
/// whether the bitmap uses alpha at all (it is left unchanged when not).
pub fn normalize_shell_bgra(pixels: &mut [u8]) -> (uses: bool)
    ensures
        uses == uses_alpha(old(pixels)@),
        !uses ==> final(pixels)@ == old(pixels)@,
        uses ==> final(pixels)@.len() == old(pixels)@.len() && forall|i: int|
            0 <= i < old(pixels)@.len() ==> #[trigger] final(pixels)@[i] == normalized_byte(
                old(pixels)@,
                straight_alpha(old(pixels)@),
                i,
            ),
{
    let n = pixels.len() / 4;
    let mut any_alpha = false;
    let mut k: usize = 0;
    while k < n
        invariant
            n == pixels@.len() / 4,
            pixels@.len() <= usize::MAX,
            k <= n,
            any_alpha == exists|j: int| 0 <= j < k && #[trigger] pixels@[4 * j + 3] != 0,
        decreases n - k,
    {
        assert(4 * k + 3 < pixels@.len()) by (nonlinear_arith)
            requires
                k < n,
                n == pixels@.len() / 4,
        ;
        if pixels[4 * k + 3] != 0 {
            any_alpha = true;
        }
        k = k + 1;
    }
    if !any_alpha {
        return false;
    }
    let mut straight = false;
    let mut k: usize = 0;
    while k < n
        invariant
            n == pixels@.len() / 4,
            pixels@.len() <= usize::MAX,
            k <= n,
            straight == exists|j: int| 0 <= j < k && #[trigger] is_straight_pixel(pixels@, j),
        decreases n - k,
    {
        assert(4 * k + 3 < pixels@.len()) by (nonlinear_arith)
            requires
                k < n,
                n == pixels@.len() / 4,
        ;
        let a = pixels[4 * k + 3];
        if 0 < a && a < 255 && (pixels[4 * k] > a || pixels[4 * k + 1] > a || pixels[4 * k + 2] > a) {
            straight = true;
        }
        assert(is_straight_pixel(pixels@, k as int) == (0 < a && a < 255 && (pixels@[4 * k as int]
            > a || pixels@[4 * k + 1] > a || pixels@[4 * k + 2] > a)));
        k = k + 1;
    }
    let ghost initial = pixels@;
    let mut k: usize = 0;
    while k < n
        invariant
            n == initial.len() / 4,
            pixels@.len() == initial.len(),
            initial.len() <= usize::MAX,
            k <= n,
            straight == straight_alpha(initial),
            forall|i: int| 0 <= i < 4 * k ==> #[trigger] pixels@[i] == normalized_byte(initial, straight, i),
            forall|i: int| 4 * k <= i < initial.len() ==> #[trigger] pixels@[i] == initial[i],
        decreases n - k,
    {
        assert(4 * k + 3 < initial.len()) by (nonlinear_arith)
            requires
                k < n,
                n == initial.len() / 4,
        ;
        let base = 4 * k;
        let a = pixels[base + 3];
        if a == 0 {
            pixels[base] = 0;
            pixels[base + 1] = 0;
            pixels[base + 2] = 0;
        } else if a < 255 && straight {
            let c0 = scaled_exec(pixels[base], a as u16) as u8;
            pixels[base] = c0;
            let c1 = scaled_exec(pixels[base + 1], a as u16) as u8;
            pixels[base + 1] = c1;
            let c2 = scaled_exec(pixels[base + 2], a as u16) as u8;
            pixels[base + 2] = c2;
        }
        assert forall|i: int| 0 <= i < 4 * (k + 1) implies #[trigger] pixels@[i] == normalized_byte(initial, straight, i) by {
            if i >= 4 * k {
                assert(i - i % 4 == 4 * k);
            }
        }
        k = k + 1;
    }
    true
}

/// How much the frosted material shifts the colour of pixel `k`: a fixed
/// grain pattern that repeats every 16 pixels (the low four bits of
/// `k * 0x9e37_79b1`).
pub open spec fn grain(k: int) -> int {
    let h = k % 16;
    if h == 0 || h == 7 {
        6
    } else if h == 3 || h == 11 {
        -4
    } else {
        0
    }
}

/// Whether pixel `k` of a surface `pixel_width` pixels wide lies in the top
/// `chrome_height` rows (the title bar).
pub open spec fn is_chrome_pixel(k: int, pixel_width: int, chrome_height: int) -> bool {
    pixel_width > 0 && k / pixel_width < (if chrome_height > 0 { chrome_height } else { 0 })
}

/// A region's alpha scaled by the surface alpha; a surface that is not
/// fully transparent keeps every pixel at least at one, so that it still
/// takes the mouse.
pub open spec fn region_alpha(region_alpha: int, surface_alpha: int) -> int {
    let s = scaled(region_alpha, surface_alpha);
    if surface_alpha > 0 && s < 1 {
        1
    } else {
        s
    }
}

/// The byte at `i` once the surface alphas are applied: each whole pixel
/// takes its region's alpha (title bar or content), scaled by the surface
/// alpha, and is premultiplied by it; with the frosted material, content
/// pixels of exactly the content colour get the grain first.
pub open spec fn surfaced_byte(
    pixels: Seq<u8>,
    i: int,
    content: Seq<u8>,
    title_alpha: int,
    content_alpha: int,
    surface_alpha: int,
    pixel_width: int,
    chrome_height: int,
    frosted_content: bool,
) -> u8 {
    if i >= 4 * (pixels.len() / 4) {
        pixels[i]
    } else {
        let k = i / 4;
        let chrome = is_chrome_pixel(k, pixel_width, chrome_height);
        let a = region_alpha(if chrome { title_alpha } else { content_alpha }, surface_alpha);
        if i % 4 == 3 {
            a as u8
        } else {
            let base = 4 * k;
            let plain = pixels[base] == content[0] && pixels[base + 1] == content[1] && pixels[base + 2] == content[2];
            let c = if frosted_content && !chrome && plain {
                let v = pixels[i] + grain(k);
                if v < 0 { 0 } else if v > 255 { 255 } else { v }
            } else {
                pixels[i] as int
            };
            if a != 255 {
                scaled(c, a) as u8
            } else {
                c as u8
            }
        }
    }
}

fn grained(c: u8, k: usize) -> (r: u8)
    ensures
        r == ({
            let v = c + grain(k as int);
            if v < 0 { 0 } else if v > 255 { 255 } else { v }
        }),
{
    let h = k % 16;
    let v: i16 = if h == 0 || h == 7 {
        c as i16 + 6
    } else if h == 3 || h == 11 {
        c as i16 - 4
    } else {
        c as i16
    };
    if v < 0 {
        0
    } else if v > 255 {
        255
    } else {
        v as u8
    }
}

/// Applies the title and content alphas and the surface alpha to a BGRA
/// surface `pixel_width` pixels wide whose top `chrome_height` rows are the
/// title bar; see `surfaced_byte`.
pub fn apply_surface_alpha(
    pixels: &mut [u8],
    content_color: u32,
    title_alpha: u8,
    content_alpha: u8,
    surface_alpha: u8,
    pixel_width: usize,
    chrome_height: i32,
    frosted_content: bool,
)
    ensures
        final(pixels)@.len() == old(pixels)@.len(),
        forall|i: int|
            0 <= i < old(pixels)@.len() ==> #[trigger] final(pixels)@[i] == surfaced_byte(
                old(pixels)@,
                i,
                dib_bytes(content_color),
                title_alpha as int,
                content_alpha as int,
                surface_alpha as int,
                pixel_width as int,
                chrome_height as int,
                frosted_content,
            ),
{
    let content = dib_color(content_color);
    let ghost initial = pixels@;
    let n = pixels.len() / 4;
    let chrome_rows: usize = if chrome_height > 0 { chrome_height as usize } else { 0 };
    let mut k: usize = 0;
    while k < n
        invariant
            n == initial.len() / 4,
            pixels@.len() == initial.len(),
            initial.len() <= usize::MAX,
            k <= n,
            content@ == dib_bytes(content_color),
            chrome_rows as int == (if chrome_height > 0 { chrome_height as int } else { 0 }),
            forall|i: int| 0 <= i < 4 * k ==> #[trigger] pixels@[i] == surfaced_byte(
                initial,
                i,
                dib_bytes(content_color),
                title_alpha as int,
                content_alpha as int,
                surface_alpha as int,
                pixel_width as int,
                chrome_height as int,
                frosted_content,
            ),
            forall|i: int| 4 * k <= i < initial.len() ==> #[trigger] pixels@[i] == initial[i],
        decreases n - k,
    {
        assert(4 * k + 3 < initial.len()) by (nonlinear_arith)
            requires
                k < n,
                n == initial.len() / 4,
        ;
        let base = 4 * k;
        let chrome = pixel_width > 0 && k / pixel_width < chrome_rows;
        let region = if chrome { title_alpha } else { content_alpha };
        let s = scaled_exec(region, surface_alpha as u16);
        let alpha: u16 = if surface_alpha > 0 && s < 1 { 1 } else { s };
        let plain = pixels[base] == content[0] && pixels[base + 1] == content[1] && pixels[base + 2] == content[2];
        let grain_it = frosted_content && !chrome && plain;
        let ghost before = pixels@;
        let mut j: usize = 0;
        while j < 3
            invariant
                j <= 3,
                base + 3 < pixels@.len(),
                pixels@.len() <= usize::MAX,
                pixels@.len() == before.len(),
                alpha <= 255,
                forall|i: int| 0 <= i < base || base + j <= i < pixels@.len() ==> #[trigger] pixels@[i] == before[i],
                forall|q: int| 0 <= q < j ==> {
                    let c = if grain_it {
                        let v = before[base + q] + grain(k as int);
                        if v < 0 { 0 } else if v > 255 { 255 } else { v }
                    } else {
                        before[base + q] as int
                    };
                    #[trigger] pixels@[base + q] == (if alpha != 255 { scaled(c, alpha as int) as u8 } else { c as u8 })
                },
            decreases 3 - j,
        {
            let c = if grain_it { grained(pixels[base + j], k) } else { pixels[base + j] };
            let v = if alpha != 255 { scaled_exec(c, alpha) as u8 } else { c };
            pixels[base + j] = v;
            j = j + 1;
        }
        pixels[base + 3] = alpha as u8;
        assert forall|i: int| 0 <= i < 4 * (k + 1) implies #[trigger] pixels@[i] == surfaced_byte(
            initial,
            i,
            dib_bytes(content_color),
            title_alpha as int,
            content_alpha as int,
            surface_alpha as int,
            pixel_width as int,
            chrome_height as int,
            frosted_content,
        ) by {
            if i >= 4 * k {
                assert(i / 4 == k);
                assert(i - 4 * k < 4);
                if i < 4 * k + 3 {
                    assert(pixels@[base + (i - base)] == pixels@[i]);
                }
            }
        }
        k = k + 1;
    }
}

} // verus!
