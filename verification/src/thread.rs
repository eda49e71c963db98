//! Thread colours: the `EmbThread` type, colour parsing (hex and named
//! colours) and the red-mean colour distance used for palette matching.

use vstd::prelude::*;
use vstd::arithmetic::power::pow;
use crate::assoc::AssocList;
use crate::error::Error;
use crate::text::{utf8_width, fold_name_char, fold_char, str_chars, push_char, parse_unsigned, parse_unsigned_spec, utf8_len, prefix_with_bytes, utf8_len_capped, prefix_with_bytes_exec, concat, digit_value, digits_value, all_digits};

verus! {

// ---------------------------------------------------------------------------
// Colour arithmetic
// ---------------------------------------------------------------------------

/// The red component (bits 16..24) of a colour value.
pub open spec fn red_of(color: u32) -> u8 {
    ((color >> 16u32) & 0xFF) as u8
}

/// The green component (bits 8..16) of a colour value.
pub open spec fn green_of(color: u32) -> u8 {
    ((color >> 8u32) & 0xFF) as u8
}

/// The blue component (bits 0..8) of a colour value.
pub open spec fn blue_of(color: u32) -> u8 {
    (color & 0xFF) as u8
}

/// The colour value of three components.
pub open spec fn rgb_value(r: u8, g: u8, b: u8) -> u32 {
    ((r as int) * 0x10000 + (g as int) * 0x100 + (b as int)) as u32
}

/// Convert RGB components to a single u32 color value (0xRRGGBB)
pub fn color_rgb(r: u8, g: u8, b: u8) -> (c: u32)
    ensures
        c == rgb_value(r, g, b),
        c <= 0xFF_FFFF,
        red_of(c) == r,
        green_of(c) == g,
        blue_of(c) == b,
{
    let c = ((r as u32) << 16u32) | ((g as u32) << 8u32) | (b as u32);
    assert(c == (r as u32) * 0x10000 + (g as u32) * 0x100 + (b as u32) && c <= 0xFF_FFFF
        && ((c >> 16u32) & 0xFF) as u8 == r && ((c >> 8u32) & 0xFF) as u8 == g && (c & 0xFF) as u8
        == b) by (bit_vector)
        requires
            c == ((r as u32) << 16u32) | ((g as u32) << 8u32) | (b as u32),
    ;
    c
}

/// Integer division by two that rounds toward zero, as `/` does on `i32`.
pub open spec fn half_toward_zero(x: int) -> int {
    if x >= 0 {
        x / 2
    } else {
        -((-x) / 2)
    }
}

/// Whether a value lies in the range of `i32`.
pub open spec fn fits_i32(x: int) -> bool {
    i32::MIN <= x <= i32::MAX
}

/// A value clamped to the range of `i32`, as `saturating_add` leaves a sum.
pub open spec fn saturate_i32(x: int) -> int {
    if x > i32::MAX {
        i32::MAX as int
    } else if x < i32::MIN {
        i32::MIN as int
    } else {
        x
    }
}

/// Whether every intermediate value of the red-mean formula fits in `i32`.
pub open spec fn redmean_fits(r1: int, g1: int, b1: int, r2: int, g2: int, b2: int) -> bool {
    let red_mean = half_toward_zero(r1 + r2);
    let r = r1 - r2;
    let g = g1 - g2;
    let b = b1 - b2;
    &&& fits_i32(r1 + r2)
    &&& fits_i32(r)
    &&& fits_i32(g)
    &&& fits_i32(b)
    &&& fits_i32(512 + red_mean)
    &&& fits_i32((512 + red_mean) * r)
    &&& fits_i32((512 + red_mean) * r * r)
    &&& fits_i32(4 * g)
    &&& fits_i32(4 * g * g)
    &&& fits_i32(767 - red_mean)
    &&& fits_i32((767 - red_mean) * b)
    &&& fits_i32((767 - red_mean) * b * b)
}

/// The red-mean colour distance of two colours given by components:
/// `((512 + m) * dr^2 >> 8) + 4 * dg^2 + ((767 - m) * db^2 >> 8)` with `m` the
/// mean red value, each sum saturated to `i32` and the result taken as `u32`.
pub open spec fn redmean_distance(r1: int, g1: int, b1: int, r2: int, g2: int, b2: int) -> u32 {
    let red_mean = half_toward_zero(r1 + r2);
    let r = r1 - r2;
    let g = g1 - g2;
    let b = b1 - b2;
    let rc = ((512 + red_mean) * r * r) / 256;
    let gc = 4 * g * g;
    let bc = ((767 - red_mean) * b * b) / 256;
    (saturate_i32(saturate_i32(rc + gc) + bc)) as u32
}

/// The red-mean distance of two colour values (their low 24 bits).
pub open spec fn color_distance_spec(c1: u32, c2: u32) -> u32 {
    redmean_distance(
        red_of(c1) as int,
        green_of(c1) as int,
        blue_of(c1) as int,
        red_of(c2) as int,
        green_of(c2) as int,
        blue_of(c2) as int,
    )
}

/// `i32::saturating_add`.
fn saturating_add_i32(a: i32, b: i32) -> (s: i32)
    ensures
        s == saturate_i32(a + b),
{
    match a.checked_add(b) {
        Some(v) => v,
        None => if b > 0 {
            i32::MAX
        } else {
            i32::MIN
        },
    }
}

/// Calculate color distance from RGB components (red-mean formula)
pub fn color_distance_components(r1: i32, g1: i32, b1: i32, r2: i32, g2: i32, b2: i32) -> (d: u32)
    requires
        redmean_fits(r1 as int, g1 as int, b1 as int, r2 as int, g2 as int, b2 as int),
    ensures
        d == redmean_distance(r1 as int, g1 as int, b1 as int, r2 as int, g2 as int, b2 as int),
{
    let red_mean = (r1 + r2) / 2;
    let r = r1 - r2;
    let g = g1 - g2;
    let b = b1 - b2;
    let rp = (512 + red_mean) * r;
    let rq = rp * r;
    let r_component = rq >> 8u32;
    let g_component = 4 * g * g;
    let bp = (767 - red_mean) * b;
    let bq = bp * b;
    let b_component = bq >> 8u32;
    assert(rq >> 8u32 == rq / 256) by (bit_vector);
    assert(bq >> 8u32 == bq / 256) by (bit_vector);
    saturating_add_i32(saturating_add_i32(r_component, g_component), b_component) as u32
}

/// Components of a colour lie in 0..=255, so the red-mean formula never overflows.
proof fn lemma_component_distance_fits(r1: int, g1: int, b1: int, r2: int, g2: int, b2: int)
    requires
        0 <= r1 <= 255,
        0 <= g1 <= 255,
        0 <= b1 <= 255,
        0 <= r2 <= 255,
        0 <= g2 <= 255,
        0 <= b2 <= 255,
    ensures
        redmean_fits(r1, g1, b1, r2, g2, b2),
        0 <= redmean_distance(r1, g1, b1, r2, g2, b2) <= 650_000,
        redmean_distance(r1, g1, b1, r2, g2, b2) == ((512 + half_toward_zero(r1 + r2)) * (r1
            - r2) * (r1 - r2)) / 256 + 4 * (g1 - g2) * (g1 - g2) + ((767 - half_toward_zero(
            r1 + r2,
        )) * (b1 - b2) * (b1 - b2)) / 256,
{
    let m = half_toward_zero(r1 + r2);
    let r = r1 - r2;
    let g = g1 - g2;
    let b = b1 - b2;
    assert(0 <= m <= 255);
    assert(0 <= r * r <= 65025) by (nonlinear_arith)
        requires
            -255 <= r <= 255,
    ;
    assert(0 <= g * g <= 65025) by (nonlinear_arith)
        requires
            -255 <= g <= 255,
    ;
    assert(0 <= b * b <= 65025) by (nonlinear_arith)
        requires
            -255 <= b <= 255,
    ;
    assert(-300000 <= (512 + m) * r <= 300000) by (nonlinear_arith)
        requires
            0 <= m <= 255,
            -255 <= r <= 255,
    ;
    assert(0 <= (512 + m) * r * r <= 49_874_175) by (nonlinear_arith)
        requires
            0 <= m <= 255,
            -255 <= r <= 255,
    ;
    assert(-300000 <= (767 - m) * b <= 300000) by (nonlinear_arith)
        requires
            0 <= m <= 255,
            -255 <= b <= 255,
    ;
    assert(0 <= (767 - m) * b * b <= 49_874_175) by (nonlinear_arith)
        requires
            0 <= m <= 255,
            -255 <= b <= 255,
    ;
    assert(0 <= 4 * g * g <= 260100) by (nonlinear_arith)
        requires
            -255 <= g <= 255,
    ;
    let x = (512 + m) * r * r;
    let y = (767 - m) * b * b;
    assert(0 <= x / 256 <= 194_821);
    assert(0 <= y / 256 <= 194_821);
}

/// Calculate color distance using the red-mean formula
pub fn color_distance(color1: u32, color2: u32) -> (d: u32)
    ensures
        d == color_distance_spec(color1, color2),
{
    let r1 = ((color1 >> 16u32) & 0xFF) as i32;
    let g1 = ((color1 >> 8u32) & 0xFF) as i32;
    let b1 = (color1 & 0xFF) as i32;
    let r2 = ((color2 >> 16u32) & 0xFF) as i32;
    let g2 = ((color2 >> 8u32) & 0xFF) as i32;
    let b2 = (color2 & 0xFF) as i32;
    assert((color1 >> 16u32) & 0xFF <= 255 && (color1 >> 8u32) & 0xFF <= 255 && color1 & 0xFF
        <= 255) by (bit_vector);
    assert((color2 >> 16u32) & 0xFF <= 255 && (color2 >> 8u32) & 0xFF <= 255 && color2 & 0xFF
        <= 255) by (bit_vector);
    proof {
        lemma_component_distance_fits(
            r1 as int,
            g1 as int,
            b1 as int,
            r2 as int,
            g2 as int,
            b2 as int,
        );
    }
    color_distance_components(r1, g1, b1, r2, g2, b2)
}

/// The colour distance is symmetric.
pub proof fn lemma_color_distance_symmetric(c1: u32, c2: u32)
    ensures
        color_distance_spec(c1, c2) == color_distance_spec(c2, c1),
{
    lemma_component_distance_laws(
        red_of(c1) as int,
        green_of(c1) as int,
        blue_of(c1) as int,
        red_of(c2) as int,
        green_of(c2) as int,
        blue_of(c2) as int,
    );
}

/// The colour distance is zero exactly when the red, green and blue components agree.
pub proof fn lemma_color_distance_zero_iff_same(c1: u32, c2: u32)
    ensures
        color_distance_spec(c1, c2) == 0 <==> (red_of(c1) == red_of(c2) && green_of(c1)
            == green_of(c2) && blue_of(c1) == blue_of(c2)),
{
    lemma_component_distance_laws(
        red_of(c1) as int,
        green_of(c1) as int,
        blue_of(c1) as int,
        red_of(c2) as int,
        green_of(c2) as int,
        blue_of(c2) as int,
    );
}

/// The colour distance weighs the components that the colour values hold:
/// red in bits 16..24, green in bits 8..16 and blue in bits 0..8.
pub proof fn lemma_color_distance_reads_bytes(c1: u32, c2: u32)
    ensures
        color_distance_spec(c1, c2) == redmean_distance(
            ((c1 >> 16u32) & 0xFF) as int,
            ((c1 >> 8u32) & 0xFF) as int,
            (c1 & 0xFF) as int,
            ((c2 >> 16u32) & 0xFF) as int,
            ((c2 >> 8u32) & 0xFF) as int,
            (c2 & 0xFF) as int,
        ),
{
    assert((c1 >> 16u32) & 0xFF <= 0xFF && (c1 >> 8u32) & 0xFF <= 0xFF && c1 & 0xFF <= 0xFF)
        by (bit_vector);
    assert((c2 >> 16u32) & 0xFF <= 0xFF && (c2 >> 8u32) & 0xFF <= 0xFF && c2 & 0xFF <= 0xFF)
        by (bit_vector);
}

/// Two colours that differ only in green (bits 8..16) are `4 * dg^2` apart.
pub proof fn lemma_color_distance_green_only(c1: u32, c2: u32)
    requires
        (c1 >> 16u32) & 0xFF == (c2 >> 16u32) & 0xFF,
        c1 & 0xFF == c2 & 0xFF,
    ensures
        color_distance_spec(c1, c2) == 4 * (((c1 >> 8u32) & 0xFF) - ((c2 >> 8u32) & 0xFF)) * (((
            c1 >> 8u32) & 0xFF) - ((c2 >> 8u32) & 0xFF)),
{
    assert((c1 >> 16u32) & 0xFF <= 0xFF && (c1 >> 8u32) & 0xFF <= 0xFF && c1 & 0xFF <= 0xFF)
        by (bit_vector);
    assert((c2 >> 16u32) & 0xFF <= 0xFF && (c2 >> 8u32) & 0xFF <= 0xFF && c2 & 0xFF <= 0xFF)
        by (bit_vector);
    lemma_color_distance_reads_bytes(c1, c2);
    let (r1, g1, b1) = (red_of(c1) as int, green_of(c1) as int, blue_of(c1) as int);
    let (r2, g2, b2) = (red_of(c2) as int, green_of(c2) as int, blue_of(c2) as int);
    lemma_component_distance_fits(r1, g1, b1, r2, g2, b2);
    let m = half_toward_zero(r1 + r2);
    assert((512 + m) * (r1 - r2) * (r1 - r2) == 0) by (nonlinear_arith)
        requires
            r1 == r2,
    ;
    assert((767 - m) * (b1 - b2) * (b1 - b2) == 0) by (nonlinear_arith)
        requires
            b1 == b2,
    ;
    assert(g1 == (c1 >> 8u32) & 0xFF && g2 == (c2 >> 8u32) & 0xFF);
}

/// Two colours that differ only in blue (bits 0..8) are
/// `(767 - r) * db^2 / 256` apart, `r` being their red component.
pub proof fn lemma_color_distance_blue_only(c1: u32, c2: u32)
    requires
        (c1 >> 16u32) & 0xFF == (c2 >> 16u32) & 0xFF,
        (c1 >> 8u32) & 0xFF == (c2 >> 8u32) & 0xFF,
    ensures
        color_distance_spec(c1, c2) == ((767 - ((c1 >> 16u32) & 0xFF)) * ((c1 & 0xFF) - (c2
            & 0xFF)) * ((c1 & 0xFF) - (c2 & 0xFF))) / 256,
{
    assert((c1 >> 16u32) & 0xFF <= 0xFF && (c1 >> 8u32) & 0xFF <= 0xFF && c1 & 0xFF <= 0xFF)
        by (bit_vector);
    assert((c2 >> 16u32) & 0xFF <= 0xFF && (c2 >> 8u32) & 0xFF <= 0xFF && c2 & 0xFF <= 0xFF)
        by (bit_vector);
    lemma_color_distance_reads_bytes(c1, c2);
    let (r1, g1, b1) = (red_of(c1) as int, green_of(c1) as int, blue_of(c1) as int);
    let (r2, g2, b2) = (red_of(c2) as int, green_of(c2) as int, blue_of(c2) as int);
    lemma_component_distance_fits(r1, g1, b1, r2, g2, b2);
    assert(half_toward_zero(r1 + r2) == r1);
    let m = half_toward_zero(r1 + r2);
    assert((512 + m) * (r1 - r2) * (r1 - r2) == 0) by (nonlinear_arith)
        requires
            r1 == r2,
    ;
    assert(4 * (g1 - g2) * (g1 - g2) == 0) by (nonlinear_arith)
        requires
            g1 == g2,
    ;
    assert(r1 == (c1 >> 16u32) & 0xFF && b1 == c1 & 0xFF && b2 == c2 & 0xFF);
}

/// For components in `0..=255` the red-mean formula cannot overflow, its
/// value is at most 650000, it does not depend on the order of the two
/// colours, and it is zero exactly when the components agree.
pub proof fn lemma_component_distance_laws(r1: int, g1: int, b1: int, r2: int, g2: int, b2: int)
    requires
        0 <= r1 <= 255,
        0 <= g1 <= 255,
        0 <= b1 <= 255,
        0 <= r2 <= 255,
        0 <= g2 <= 255,
        0 <= b2 <= 255,
    ensures
        redmean_fits(r1, g1, b1, r2, g2, b2),
        redmean_distance(r1, g1, b1, r2, g2, b2) <= 650_000,
        redmean_distance(r1, g1, b1, r2, g2, b2) == redmean_distance(r2, g2, b2, r1, g1, b1),
        redmean_distance(r1, g1, b1, r2, g2, b2) == 0 <==> (r1 == r2 && g1 == g2 && b1 == b2),
{
    lemma_component_distance_fits(r1, g1, b1, r2, g2, b2);
    lemma_component_distance_fits(r2, g2, b2, r1, g1, b1);
    let m = half_toward_zero(r1 + r2);
    assert(m == half_toward_zero(r2 + r1));
    let r = r1 - r2;
    let g = g1 - g2;
    let b = b1 - b2;
    assert(0 <= m <= 255);
    assert((512 + m) * (r1 - r2) * (r1 - r2) == (512 + m) * (r2 - r1) * (r2 - r1))
        by (nonlinear_arith);
    assert(4 * (g1 - g2) * (g1 - g2) == 4 * (g2 - g1) * (g2 - g1)) by (nonlinear_arith);
    assert((767 - m) * (b1 - b2) * (b1 - b2) == (767 - m) * (b2 - b1) * (b2 - b1))
        by (nonlinear_arith);
    assert(r != 0 ==> (512 + m) * r * r >= 512) by (nonlinear_arith)
        requires
            0 <= m <= 255,
    ;
    assert(g != 0 ==> 4 * g * g >= 4) by (nonlinear_arith);
    assert(b != 0 ==> (767 - m) * b * b >= 512) by (nonlinear_arith)
        requires
            0 <= m <= 255,
    ;
    assert((512 + m) * r * r >= 0) by (nonlinear_arith)
        requires
            0 <= m <= 255,
    ;
    assert(4 * g * g >= 0) by (nonlinear_arith);
    assert((767 - m) * b * b >= 0) by (nonlinear_arith)
        requires
            0 <= m <= 255,
    ;
}

// ---------------------------------------------------------------------------
// Colour strings
// ---------------------------------------------------------------------------

/// The text without its leading `#` characters.
pub open spec fn strip_hashes(s: Seq<char>) -> Seq<char>
    decreases s.len(),
{
    if s.len() > 0 && s[0] == '#' {
        strip_hashes(s.drop_first())
    } else {
        s
    }
}

/// Inputs on which hex colour parsing slices inside a character: those whose
/// text after the `#` signs is 6 or 8 bytes long without a character boundary
/// after byte 6, or 3 or 4 bytes long in fewer than 3 characters.
pub open spec fn hex_color_panics(s: Seq<char>) -> bool {
    let h = strip_hashes(s);
    let n = utf8_len(h);
    ||| (n == 6 || n == 8) && prefix_with_bytes(h, 6) is None
    ||| (n == 3 || n == 4) && h.len() < 3
}

/// The colour that a hex colour string denotes: after the leading `#` signs, a
/// text of 6 or 8 bytes gives the hex number of its first 6 bytes, a text of 3
/// or 4 bytes gives the hex number of its first 3 characters each doubled
/// (`F00` is `FF0000`); any other text denotes no colour.
pub open spec fn hex_color_value(s: Seq<char>) -> Option<u32> {
    let h = strip_hashes(s);
    let n = utf8_len(h);
    if n == 6 || n == 8 {
        match prefix_with_bytes(h, 6) {
            Some(p) => match parse_unsigned_spec(p, 16, 0xFFFF_FFFF) {
                Some(v) => Some(v as u32),
                None => None,
            },
            None => None,
        }
    } else if n == 3 || n == 4 {
        match parse_unsigned_spec(seq![h[0], h[0], h[1], h[1], h[2], h[2]], 16, 0xFFFF_FFFF) {
            Some(v) => Some(v as u32),
            None => None,
        }
    } else {
        None
    }
}

/// Parse hex color string (with or without #)
pub fn parse_color_hex(hex_string: &str) -> (r: Result<u32, Error>)
    requires
        !hex_color_panics(hex_string@),
    ensures
        r matches Ok(v) ==> hex_color_value(hex_string@) == Some(v),
        r matches Ok(v) ==> v <= 0xFF_FFFF,
        r is Err ==> hex_color_value(hex_string@) is None,
        r matches Err(e) ==> e is InvalidColor,
{
    proof {
        lemma_hex_color_fits_24_bits(hex_string@);
    }
    let chars = str_chars(hex_string);
    let mut start: usize = 0;
    assert(chars@.skip(0) =~= chars@);
    while start < chars.len() && chars[start] == '#'
        invariant
            start <= chars@.len(),
            chars@ == hex_string@,
            strip_hashes(hex_string@) == strip_hashes(chars@.skip(start as int)),
        decreases chars@.len() - start,
    {
        assert(chars@.skip(start as int).drop_first() =~= chars@.skip(start + 1));
        start = start + 1;
    }
    let ghost h = chars@.skip(start as int);
    assert(strip_hashes(hex_string@) == h);
    let size = utf8_len_capped(chars.as_slice(), start, 8);
    if size == 6 || size == 8 {
        match prefix_with_bytes_exec(chars.as_slice(), start, 6) {
            Some(p) => match parse_unsigned(p.as_slice(), 16, 0xFFFF_FFFF) {
                Some(v) => Ok(v as u32),
                None => Err(Error::InvalidColor(concat("Invalid hex color: ", hex_string))),
            },
            None => Err(Error::InvalidColor(concat("Invalid hex color: ", hex_string))),
        }
    } else if size == 3 || size == 4 {
        let c0 = chars[start];
        let c1 = chars[start + 1];
        let c2 = chars[start + 2];
        let mut expanded: Vec<char> = Vec::new();
        expanded.push(c0);
        expanded.push(c0);
        expanded.push(c1);
        expanded.push(c1);
        expanded.push(c2);
        expanded.push(c2);
        assert(expanded@ =~= seq![h[0], h[0], h[1], h[1], h[2], h[2]]);
        match parse_unsigned(expanded.as_slice(), 16, 0xFFFF_FFFF) {
            Some(v) => Ok(v as u32),
            None => Err(Error::InvalidColor(concat("Invalid hex color: ", hex_string))),
        }
    } else {
        Err(Error::InvalidColor(concat("Invalid hex color length: ", hex_string)))
    }
}

/// The X11/CSS/SVG named colours, in the order they are looked up.
pub open spec fn named_colors() -> Seq<(&'static str, u32)> {
    seq![
        ("aliceblue", 0xF0F8FFu32),
        ("antiquewhite", 0xFAEBD7u32),
        ("aqua", 0x00FFFFu32),
        ("aquamarine", 0x7FFFD4u32),
        ("azure", 0xF0FFFFu32),
        ("beige", 0xF5F5DCu32),
        ("bisque", 0xFFE4C4u32),
        ("black", 0x000000u32),
        ("blanchedalmond", 0xFFEBCDu32),
        ("blue", 0x0000FFu32),
        ("blueviolet", 0x8A2BE2u32),
        ("brown", 0xA52A2Au32),
        ("burlywood", 0xDEB887u32),
        ("cadetblue", 0x5F9EA0u32),
        ("chartreuse", 0x7FFF00u32),
        ("chocolate", 0xD2691Eu32),
        ("coral", 0xFF7F50u32),
        ("cornflowerblue", 0x6495EDu32),
        ("cornsilk", 0xFFF8DCu32),
        ("crimson", 0xDC143Cu32),
        ("cyan", 0x00FFFFu32),
        ("darkblue", 0x00008Bu32),
        ("darkcyan", 0x008B8Bu32),
        ("darkgoldenrod", 0xB8860Bu32),
        ("darkgray", 0xA9A9A9u32),
        ("darkgreen", 0x006400u32),
        ("darkgrey", 0xA9A9A9u32),
        ("darkkhaki", 0xBDB76Bu32),
        ("darkmagenta", 0x8B008Bu32),
        ("darkolivegreen", 0x556B2Fu32),
        ("darkorange", 0xFF8C00u32),
        ("darkorchid", 0x9932CCu32),
        ("darkred", 0x8B0000u32),
        ("darksalmon", 0xE9967Au32),
        ("darkseagreen", 0x8FBC8Fu32),
        ("darkslateblue", 0x483D8Bu32),
        ("darkslategray", 0x2F4F4Fu32),
        ("darkslategrey", 0x2F4F4Fu32),
        ("darkturquoise", 0x00CED1u32),
        ("darkviolet", 0x9400D3u32),
        ("deeppink", 0xFF1493u32),
        ("deepskyblue", 0x00BFFFu32),
        ("dimgray", 0x696969u32),
        ("dimgrey", 0x696969u32),
        ("dodgerblue", 0x1E90FFu32),
        ("firebrick", 0xB22222u32),
        ("floralwhite", 0xFFFAF0u32),
        ("forestgreen", 0x228B22u32),
        ("fuchsia", 0xFF00FFu32),
        ("gainsboro", 0xDCDCDCu32),
        ("ghostwhite", 0xF8F8FFu32),
        ("gold", 0xFFD700u32),
        ("goldenrod", 0xDAA520u32),
        ("gray", 0x808080u32),
        ("grey", 0x808080u32),
        ("green", 0x008000u32),
        ("greenyellow", 0xADFF2Fu32),
        ("honeydew", 0xF0FFF0u32),
        ("hotpink", 0xFF69B4u32),
        ("indianred", 0xCD5C5Cu32),
        ("indigo", 0x4B0082u32),
        ("ivory", 0xFFFFF0u32),
        ("khaki", 0xF0E68Cu32),
        ("lavender", 0xE6E6FAu32),
        ("lavenderblush", 0xFFF0F5u32),
        ("lawngreen", 0x7CFC00u32),
        ("lemonchiffon", 0xFFFACDu32),
        ("lightblue", 0xADD8E6u32),
        ("lightcoral", 0xF08080u32),
        ("lightcyan", 0xE0FFFFu32),
        ("lightgoldenrodyellow", 0xFAFAD2u32),
        ("lightgray", 0xD3D3D3u32),
        ("lightgreen", 0x90EE90u32),
        ("lightgrey", 0xD3D3D3u32),
        ("lightpink", 0xFFB6C1u32),
        ("lightsalmon", 0xFFA07Au32),
        ("lightseagreen", 0x20B2AAu32),
        ("lightskyblue", 0x87CEFAu32),
        ("lightslategray", 0x778899u32),
        ("lightslategrey", 0x778899u32),
        ("lightsteelblue", 0xB0C4DEu32),
        ("lightyellow", 0xFFFFE0u32),
        ("lime", 0x00FF00u32),
        ("limegreen", 0x32CD32u32),
        ("linen", 0xFAF0E6u32),
        ("magenta", 0xFF00FFu32),
        ("maroon", 0x800000u32),
        ("mediumaquamarine", 0x66CDAAu32),
        ("mediumblue", 0x0000CDu32),
        ("mediumorchid", 0xBA55D3u32),
        ("mediumpurple", 0x9370DBu32),
        ("mediumseagreen", 0x3CB371u32),
        ("mediumslateblue", 0x7B68EEu32),
        ("mediumspringgreen", 0x00FA9Au32),
        ("mediumturquoise", 0x48D1CCu32),
        ("mediumvioletred", 0xC71585u32),
        ("midnightblue", 0x191970u32),
        ("mintcream", 0xF5FFFAu32),
        ("mistyrose", 0xFFE4E1u32),
        ("moccasin", 0xFFE4B5u32),
        ("navajowhite", 0xFFDEADu32),
        ("navy", 0x000080u32),
        ("oldlace", 0xFDF5E6u32),
        ("olive", 0x808000u32),
        ("olivedrab", 0x6B8E23u32),
        ("orange", 0xFFA500u32),
        ("orangered", 0xFF4500u32),
        ("orchid", 0xDA70D6u32),
        ("palegoldenrod", 0xEEE8AAu32),
        ("palegreen", 0x98FB98u32),
        ("paleturquoise", 0xAFEEEEu32),
        ("palevioletred", 0xDB7093u32),
        ("papayawhip", 0xFFEFD5u32),
        ("peachpuff", 0xFFDAB9u32),
        ("peru", 0xCD853Fu32),
        ("pink", 0xFFC0CBu32),
        ("plum", 0xDDA0DDu32),
        ("powderblue", 0xB0E0E6u32),
        ("purple", 0x800080u32),
        ("red", 0xFF0000u32),
        ("rosybrown", 0xBC8F8Fu32),
        ("royalblue", 0x4169E1u32),
        ("saddlebrown", 0x8B4513u32),
        ("salmon", 0xFA8072u32),
        ("sandybrown", 0xF4A460u32),
        ("seagreen", 0x2E8B57u32),
        ("seashell", 0xFFF5EEu32),
        ("sienna", 0xA0522Du32),
        ("silver", 0xC0C0C0u32),
        ("skyblue", 0x87CEEBu32),
        ("slateblue", 0x6A5ACDu32),
        ("slategray", 0x708090u32),
        ("slategrey", 0x708090u32),
        ("snow", 0xFFFAFAu32),
        ("springgreen", 0x00FF7Fu32),
        ("steelblue", 0x4682B4u32),
        ("tan", 0xD2B48Cu32),
        ("teal", 0x008080u32),
        ("thistle", 0xD8BFD8u32),
        ("tomato", 0xFF6347u32),
        ("turquoise", 0x40E0D0u32),
        ("violet", 0xEE82EEu32),
        ("wheat", 0xF5DEB3u32),
        ("white", 0xFFFFFFu32),
        ("whitesmoke", 0xF5F5F5u32),
        ("yellow", 0xFFFF00u32),
        ("yellowgreen", 0x9ACD32u32),
    ]
}

/// The named colours as executable data.
fn named_color_table() -> (t: [(&'static str, u32); 147])
    ensures
        t@ == named_colors(),
{
    let t: [(&'static str, u32); 147] = [
        ("aliceblue", 0xF0F8FFu32),
        ("antiquewhite", 0xFAEBD7u32),
        ("aqua", 0x00FFFFu32),
        ("aquamarine", 0x7FFFD4u32),
        ("azure", 0xF0FFFFu32),
        ("beige", 0xF5F5DCu32),
        ("bisque", 0xFFE4C4u32),
        ("black", 0x000000u32),
        ("blanchedalmond", 0xFFEBCDu32),
        ("blue", 0x0000FFu32),
        ("blueviolet", 0x8A2BE2u32),
        ("brown", 0xA52A2Au32),
        ("burlywood", 0xDEB887u32),
        ("cadetblue", 0x5F9EA0u32),
        ("chartreuse", 0x7FFF00u32),
        ("chocolate", 0xD2691Eu32),
        ("coral", 0xFF7F50u32),
        ("cornflowerblue", 0x6495EDu32),
        ("cornsilk", 0xFFF8DCu32),
        ("crimson", 0xDC143Cu32),
        ("cyan", 0x00FFFFu32),
        ("darkblue", 0x00008Bu32),
        ("darkcyan", 0x008B8Bu32),
        ("darkgoldenrod", 0xB8860Bu32),
        ("darkgray", 0xA9A9A9u32),
        ("darkgreen", 0x006400u32),
        ("darkgrey", 0xA9A9A9u32),
        ("darkkhaki", 0xBDB76Bu32),
        ("darkmagenta", 0x8B008Bu32),
        ("darkolivegreen", 0x556B2Fu32),
        ("darkorange", 0xFF8C00u32),
        ("darkorchid", 0x9932CCu32),
        ("darkred", 0x8B0000u32),
        ("darksalmon", 0xE9967Au32),
        ("darkseagreen", 0x8FBC8Fu32),
        ("darkslateblue", 0x483D8Bu32),
        ("darkslategray", 0x2F4F4Fu32),
        ("darkslategrey", 0x2F4F4Fu32),
        ("darkturquoise", 0x00CED1u32),
        ("darkviolet", 0x9400D3u32),
        ("deeppink", 0xFF1493u32),
        ("deepskyblue", 0x00BFFFu32),
        ("dimgray", 0x696969u32),
        ("dimgrey", 0x696969u32),
        ("dodgerblue", 0x1E90FFu32),
        ("firebrick", 0xB22222u32),
        ("floralwhite", 0xFFFAF0u32),
        ("forestgreen", 0x228B22u32),
        ("fuchsia", 0xFF00FFu32),
        ("gainsboro", 0xDCDCDCu32),
        ("ghostwhite", 0xF8F8FFu32),
        ("gold", 0xFFD700u32),
        ("goldenrod", 0xDAA520u32),
        ("gray", 0x808080u32),
        ("grey", 0x808080u32),
        ("green", 0x008000u32),
        ("greenyellow", 0xADFF2Fu32),
        ("honeydew", 0xF0FFF0u32),
        ("hotpink", 0xFF69B4u32),
        ("indianred", 0xCD5C5Cu32),
        ("indigo", 0x4B0082u32),
        ("ivory", 0xFFFFF0u32),
        ("khaki", 0xF0E68Cu32),
        ("lavender", 0xE6E6FAu32),
        ("lavenderblush", 0xFFF0F5u32),
        ("lawngreen", 0x7CFC00u32),
        ("lemonchiffon", 0xFFFACDu32),
        ("lightblue", 0xADD8E6u32),
        ("lightcoral", 0xF08080u32),
        ("lightcyan", 0xE0FFFFu32),
        ("lightgoldenrodyellow", 0xFAFAD2u32),
        ("lightgray", 0xD3D3D3u32),
        ("lightgreen", 0x90EE90u32),
        ("lightgrey", 0xD3D3D3u32),
        ("lightpink", 0xFFB6C1u32),
        ("lightsalmon", 0xFFA07Au32),
        ("lightseagreen", 0x20B2AAu32),
        ("lightskyblue", 0x87CEFAu32),
        ("lightslategray", 0x778899u32),
        ("lightslategrey", 0x778899u32),
        ("lightsteelblue", 0xB0C4DEu32),
        ("lightyellow", 0xFFFFE0u32),
        ("lime", 0x00FF00u32),
        ("limegreen", 0x32CD32u32),
        ("linen", 0xFAF0E6u32),
        ("magenta", 0xFF00FFu32),
        ("maroon", 0x800000u32),
        ("mediumaquamarine", 0x66CDAAu32),
        ("mediumblue", 0x0000CDu32),
        ("mediumorchid", 0xBA55D3u32),
        ("mediumpurple", 0x9370DBu32),
        ("mediumseagreen", 0x3CB371u32),
        ("mediumslateblue", 0x7B68EEu32),
        ("mediumspringgreen", 0x00FA9Au32),
        ("mediumturquoise", 0x48D1CCu32),
        ("mediumvioletred", 0xC71585u32),
        ("midnightblue", 0x191970u32),
        ("mintcream", 0xF5FFFAu32),
        ("mistyrose", 0xFFE4E1u32),
        ("moccasin", 0xFFE4B5u32),
        ("navajowhite", 0xFFDEADu32),
        ("navy", 0x000080u32),
        ("oldlace", 0xFDF5E6u32),
        ("olive", 0x808000u32),
        ("olivedrab", 0x6B8E23u32),
        ("orange", 0xFFA500u32),
        ("orangered", 0xFF4500u32),
        ("orchid", 0xDA70D6u32),
        ("palegoldenrod", 0xEEE8AAu32),
        ("palegreen", 0x98FB98u32),
        ("paleturquoise", 0xAFEEEEu32),
        ("palevioletred", 0xDB7093u32),
        ("papayawhip", 0xFFEFD5u32),
        ("peachpuff", 0xFFDAB9u32),
        ("peru", 0xCD853Fu32),
        ("pink", 0xFFC0CBu32),
        ("plum", 0xDDA0DDu32),
        ("powderblue", 0xB0E0E6u32),
        ("purple", 0x800080u32),
        ("red", 0xFF0000u32),
        ("rosybrown", 0xBC8F8Fu32),
        ("royalblue", 0x4169E1u32),
        ("saddlebrown", 0x8B4513u32),
        ("salmon", 0xFA8072u32),
        ("sandybrown", 0xF4A460u32),
        ("seagreen", 0x2E8B57u32),
        ("seashell", 0xFFF5EEu32),
        ("sienna", 0xA0522Du32),
        ("silver", 0xC0C0C0u32),
        ("skyblue", 0x87CEEBu32),
        ("slateblue", 0x6A5ACDu32),
        ("slategray", 0x708090u32),
        ("slategrey", 0x708090u32),
        ("snow", 0xFFFAFAu32),
        ("springgreen", 0x00FF7Fu32),
        ("steelblue", 0x4682B4u32),
        ("tan", 0xD2B48Cu32),
        ("teal", 0x008080u32),
        ("thistle", 0xD8BFD8u32),
        ("tomato", 0xFF6347u32),
        ("turquoise", 0x40E0D0u32),
        ("violet", 0xEE82EEu32),
        ("wheat", 0xF5DEB3u32),
        ("white", 0xFFFFFFu32),
        ("whitesmoke", 0xF5F5F5u32),
        ("yellow", 0xFFFF00u32),
        ("yellowgreen", 0x9ACD32u32),
    ];
    t
}

/// The value of the first named colour from position `i` on whose name is `folded`.
pub open spec fn named_color_from(folded: Seq<char>, i: int) -> Option<u32>
    decreases named_colors().len() - i,
{
    if i < 0 || i >= named_colors().len() {
        None
    } else if named_colors()[i].0@ == folded {
        Some(named_colors()[i].1)
    } else {
        named_color_from(folded, i + 1)
    }
}

/// The value of a named colour, looked up case-insensitively.
pub open spec fn named_color_value(name: Seq<char>) -> Option<u32> {
    named_color_from(name.map_values(|c: char| fold_name_char(c)), 0)
}

/// Looks a colour name up in the named colour table.
fn lookup_named_color(name: &str) -> (r: Option<u32>)
    ensures
        r == named_color_value(name@),
{
    let chars = str_chars(name);
    let mut folded: Vec<char> = Vec::new();
    let mut i: usize = 0;
    while i < chars.len()
        invariant
            i <= chars@.len(),
            chars@ == name@,
            folded@ == chars@.take(i as int).map_values(|c: char| fold_name_char(c)),
        decreases chars@.len() - i,
    {
        folded.push(fold_char(chars[i]));
        i = i + 1;
        assert(folded@ =~= chars@.take(i as int).map_values(|c: char| fold_name_char(c)));
    }
    assert(chars@.take(chars@.len() as int) =~= chars@);
    let table = named_color_table();
    let table: &[(&'static str, u32)] = &table;
    let mut k: usize = 0;
    while k < table.len()
        invariant
            k <= table@.len(),
            table@ == named_colors(),
            folded@ == name@.map_values(|c: char| fold_name_char(c)),
            named_color_from(folded@, 0) == named_color_from(folded@, k as int),
        decreases table@.len() - k,
    {
        let entry = str_chars(table[k].0);
        if crate::text::chars_eq(entry.as_slice(), folded.as_slice()) {
            return Some(table[k].1);
        }
        k = k + 1;
    }
    None
}

/// The current time, as `std::time::SystemTime`.
#[verifier::external_type_specification]
#[verifier::external_body]
pub struct ExSystemTime(std::time::SystemTime);

/// `SystemTime::now`: the current time of the system clock. Nothing is
/// stated of it; it changes from call to call.
#[verifier::external_body]
fn system_time_now() -> std::time::SystemTime {
    std::time::SystemTime::now()
}

/// `RandomState::new`: a hasher state whose keys are chosen at random.
/// Nothing is stated of it; it differs from call to call.
#[verifier::external_body]
fn new_random_state() -> std::collections::hash_map::RandomState {
    std::collections::hash_map::RandomState::new()
}

/// `BuildHasher::hash_one` of a time under a `RandomState`: the 64-bit hash
/// of the time with that state's random keys. Nothing is stated of the
/// value.
#[verifier::external_body]
fn hash_time(
    state: &std::collections::hash_map::RandomState,
    time: std::time::SystemTime,
) -> u64 {
    std::hash::BuildHasher::hash_one(state, time)
}

/// `char::is_ascii_hexdigit`.
pub open spec fn is_hex_digit(c: char) -> bool {
    ('0' <= c && c <= '9') || ('a' <= c && c <= 'f') || ('A' <= c && c <= 'F')
}

/// The text `random`.
pub open spec fn is_random_keyword(s: Seq<char>) -> bool {
    s == seq!['r', 'a', 'n', 'd', 'o', 'm']
}

/// Whether a colour string is read as a hex colour: it starts with `#`, or it
/// is 3 or 6 hex digits.
pub open spec fn reads_as_hex(s: Seq<char>) -> bool {
    (s.len() > 0 && s[0] == '#') || ((s.len() == 3 || s.len() == 6) && forall|i: int|
        0 <= i < s.len() ==> #[trigger] is_hex_digit(s[i]))
}

/// The colour that a colour string denotes (`random` aside): a hex colour, or
/// else a named colour.
pub open spec fn color_string_value(s: Seq<char>) -> Option<u32> {
    if reads_as_hex(s) {
        hex_color_value(s)
    } else {
        named_color_value(s)
    }
}

/// Whether a colour string would make colour parsing panic: it is read as a
/// hex colour (and is not `random`) and its hex part cannot be sliced.
pub fn color_string_would_panic(chars: &[char]) -> (b: bool)
    ensures
        b == (!is_random_keyword(chars@) && reads_as_hex(chars@) && hex_color_panics(chars@)),
{
    let n = chars.len();
    let random = n == 6 && chars[0] == 'r' && chars[1] == 'a' && chars[2] == 'n' && chars[3]
        == 'd' && chars[4] == 'o' && chars[5] == 'm';
    assert(random <==> is_random_keyword(chars@)) by {
        if random {
            assert(chars@ =~= seq!['r', 'a', 'n', 'd', 'o', 'm']);
        }
        if is_random_keyword(chars@) {
            assert(chars@[0] == 'r' && chars@[5] == 'm');
        }
    }
    if random {
        return false;
    }
    let mut as_hex = n > 0 && chars[0] == '#';
    if !as_hex && (n == 3 || n == 6) {
        let mut all_hex = true;
        let mut i: usize = 0;
        while i < n
            invariant
                i <= n == chars@.len(),
                all_hex == forall|j: int| 0 <= j < i ==> #[trigger] is_hex_digit(chars@[j]),
            decreases n - i,
        {
            let c = chars[i];
            let h = ('0' <= c && c <= '9') || ('a' <= c && c <= 'f') || ('A' <= c && c <= 'F');
            assert(h == is_hex_digit(chars@[i as int]));
            all_hex = all_hex && h;
            i = i + 1;
            assert(all_hex == forall|j: int| 0 <= j < i ==> #[trigger] is_hex_digit(chars@[j])) by {
                if all_hex {
                    assert forall|j: int| 0 <= j < i implies #[trigger] is_hex_digit(chars@[j]) by {}
                }
            }
        }
        as_hex = all_hex;
    }
    assert(as_hex == reads_as_hex(chars@));
    if !as_hex {
        return false;
    }
    let mut start: usize = 0;
    assert(chars@.skip(0) =~= chars@);
    while start < n && chars[start] == '#'
        invariant
            start <= n == chars@.len(),
            strip_hashes(chars@) == strip_hashes(chars@.skip(start as int)),
        decreases n - start,
    {
        assert(chars@.skip(start as int).drop_first() =~= chars@.skip(start + 1));
        start = start + 1;
    }
    assert(strip_hashes(chars@) == chars@.skip(start as int));
    let size = utf8_len_capped(chars, start, 8);
    if size == 6 || size == 8 {
        prefix_with_bytes_exec(chars, start, 6).is_none()
    } else if size == 3 || size == 4 {
        n - start < 3
    } else {
        false
    }
}

/// The colour that a 64-bit hash picks: the low 24 bits of its low 32 bits.
pub fn color_from_hash(hash: u64) -> (c: u32)
    ensures
        c == (hash as u32) & 0xFF_FFFF,
        c <= 0xFF_FFFF,
{
    let bits = hash as u32;
    let v = bits & 0xFF_FFFF;
    assert(v <= 0xFF_FFFF) by (bit_vector)
        requires
            v == bits & 0xFF_FFFF,
    ;
    v
}

/// Parse a color string (hex or named color); `random` gives a random colour
pub fn parse_color_string(color: &str) -> (r: Result<u32, Error>)
    requires
        !is_random_keyword(color@) && reads_as_hex(color@) ==> !hex_color_panics(color@),
    ensures
        is_random_keyword(color@) ==> (r matches Ok(v) && v <= 0xFF_FFFF),
        !is_random_keyword(color@) ==> (r matches Ok(v) ==> color_string_value(color@) == Some(v)),
        !is_random_keyword(color@) ==> (r is Err <==> color_string_value(color@) is None),
        r matches Err(e) ==> e is InvalidColor,
{
    let chars = str_chars(color);
    if chars.len() == 6 && chars[0] == 'r' && chars[1] == 'a' && chars[2] == 'n' && chars[3]
        == 'd' && chars[4] == 'o' && chars[5] == 'm' {
        assert(chars@ =~= seq!['r', 'a', 'n', 'd', 'o', 'm']);
        let state = new_random_state();
        let time = system_time_now();
        return Ok(color_from_hash(hash_time(&state, time)));
    }
    proof {
        if is_random_keyword(color@) {
            assert(chars@ == seq!['r', 'a', 'n', 'd', 'o', 'm']);
            assert(chars@[0] == 'r' && chars@[5] == 'm');
        }
    }
    if chars.len() > 0 && chars[0] == '#' {
        return parse_color_hex(color);
    }
    if chars.len() == 3 || chars.len() == 6 {
        let mut all_hex = true;
        let mut i: usize = 0;
        while i < chars.len()
            invariant
                i <= chars@.len(),
                all_hex == forall|j: int| 0 <= j < i ==> #[trigger] is_hex_digit(chars@[j]),
            decreases chars@.len() - i,
        {
            let c = chars[i];
            let h = ('0' <= c && c <= '9') || ('a' <= c && c <= 'f') || ('A' <= c && c <= 'F');
            assert(h == is_hex_digit(chars@[i as int]));
            all_hex = all_hex && h;
            i = i + 1;
            assert(all_hex == forall|j: int| 0 <= j < i ==> #[trigger] is_hex_digit(chars@[j])) by {
                if all_hex {
                    assert forall|j: int| 0 <= j < i implies #[trigger] is_hex_digit(chars@[j]) by {
                    }
                }
            }
        }
        if all_hex {
            return parse_color_hex(color);
        }
    }
    match lookup_named_color(color) {
        Some(v) => Ok(v),
        None => Err(Error::InvalidColor(concat("Unknown color name: ", color))),
    }
}

// ---------------------------------------------------------------------------
// Threads
// ---------------------------------------------------------------------------

/// Embroidery thread with color and metadata
#[derive(Debug, Clone)]
pub struct EmbThread {
    /// Thread color in RGB format (0xRRGGBB)
    pub color: u32,
    /// Thread description/name (e.g., "Red", "Cardinal Red")
    pub description: Option<String>,
    /// Catalog/ID number (e.g., "1234", "5005")
    pub catalog_number: Option<String>,
    /// Additional details (deprecated - use attributes instead)
    pub details: Option<String>,
    /// Brand/manufacturer (e.g., "Brother", "Madeira", "Isacord")
    pub brand: Option<String>,
    /// Chart reference (e.g., "DMC", "Anchor")
    pub chart: Option<String>,
    /// Thread weight (e.g., "40wt", "60wt", "12wt")
    pub weight: Option<String>,
    /// Extensible metadata for custom thread properties
    pub attributes: AssocList<String>,
}

/// The characters of an optional string.
pub open spec fn opt_view(o: Option<String>) -> Option<Seq<char>> {
    match o {
        Some(s) => Some(s@),
        None => None,
    }
}

/// The characters of the values of an attribute list.
pub open spec fn attr_view(s: Seq<(Seq<char>, String)>) -> Seq<(Seq<char>, Seq<char>)> {
    s.map_values(|e: (Seq<char>, String)| (e.0, e.1@))
}

/// The lowercase hex digit of a value below 16.
pub open spec fn hex_digit_char(n: int) -> char {
    if n < 10 {
        ('0' as int + n) as char
    } else {
        ('a' as int + n - 10) as char
    }
}

/// `#rrggbb` for a colour value (lowercase hex).
pub open spec fn hex_color_text(color: u32) -> Seq<char> {
    let r = red_of(color) as int;
    let g = green_of(color) as int;
    let b = blue_of(color) as int;
    seq![
        '#',
        hex_digit_char(r / 16),
        hex_digit_char(r % 16),
        hex_digit_char(g / 16),
        hex_digit_char(g % 16),
        hex_digit_char(b / 16),
        hex_digit_char(b % 16),
    ]
}

/// How a thread is displayed: `Thread(#rrggbb)`, then ` - description` when it
/// has one, then ` [brand #catalog]`, ` [brand]` or ` [#catalog]`.
pub open spec fn thread_display_text(t: EmbThread) -> Seq<char> {
    let base = seq!['T', 'h', 'r', 'e', 'a', 'd', '('] + hex_color_text(t.color) + seq![')'];
    let with_desc = match t.description {
        Some(d) => base + seq![' ', '-', ' '] + d@,
        None => base,
    };
    match (t.brand, t.catalog_number) {
        (Some(b), Some(c)) => with_desc + seq![' ', '['] + b@ + seq![' ', '#'] + c@ + seq![']'],
        (Some(b), None) => with_desc + seq![' ', '['] + b@ + seq![']'],
        (None, Some(c)) => with_desc + seq![' ', '[', '#'] + c@ + seq![']'],
        (None, None) => with_desc,
    }
}

/// A hex digit character reads back as its value.
proof fn lemma_hex_digit_value(n: int)
    requires
        0 <= n < 16,
    ensures
        digit_value(hex_digit_char(n), 16) == Some(n as nat),
        (hex_digit_char(n) as u32) < 0x80,
        hex_digit_char(n) != '#',
        hex_digit_char(n) != '+',
{
}

/// An ASCII text is as many bytes long as it has characters, and its first
/// that many bytes are all of it.
proof fn lemma_ascii_text(s: Seq<char>)
    requires
        forall|i: int| 0 <= i < s.len() ==> (s[i] as u32) < 0x80,
    ensures
        utf8_len(s) == s.len(),
        prefix_with_bytes(s, s.len() as int) == Some(s),
    decreases s.len(),
{
    if s.len() > 0 {
        lemma_ascii_text(s.drop_first());
        assert(seq![s[0]] + s.drop_first() =~= s);
    }
}

/// The first `n` bytes of a text, when they end on a character boundary,
/// are `n` bytes long.
proof fn lemma_prefix_bytes_exact(s: Seq<char>, n: int)
    requires
        n >= 0,
    ensures
        prefix_with_bytes(s, n) matches Some(p) ==> utf8_len(p) == n,
    decreases s.len(),
{
    if n != 0 && s.len() > 0 && utf8_width(s[0]) <= n {
        lemma_prefix_bytes_exact(s.drop_first(), n - utf8_width(s[0]));
        if let Some(q) = prefix_with_bytes(s.drop_first(), n - utf8_width(s[0])) {
            assert((seq![s[0]] + q).drop_first() =~= q);
        }
    }
}

/// `n` hex digits spell a number below `16^n`.
proof fn lemma_hex_digits_bound(s: Seq<char>)
    requires
        all_digits(s, 16),
    ensures
        digits_value(s, 16) < pow(16, s.len()),
    decreases s.len(),
{
    reveal(pow);
    if s.len() > 0 {
        let t = s.drop_last();
        assert(all_digits(t, 16)) by {
            assert forall|i: int| 0 <= i < t.len() implies (#[trigger] digit_value(t[i], 16)) is Some by {
                assert(digit_value(s[i], 16) is Some);
            }
        }
        lemma_hex_digits_bound(t);
        assert(digit_value(s[s.len() - 1], 16) is Some);
        let d = digit_value(s.last(), 16).unwrap();
        assert(d < 16);
        let a = digits_value(t, 16);
        let b = pow(16, t.len());
        assert(a * 16 + d < b * 16) by (nonlinear_arith)
            requires
                a < b,
                d < 16,
        ;
    }
}

/// A hex colour string denotes at most a 24-bit colour.
pub proof fn lemma_hex_color_fits_24_bits(s: Seq<char>)
    ensures
        hex_color_value(s) matches Some(v) ==> v <= 0xFF_FFFF,
{
    let h = strip_hashes(s);
    let n = utf8_len(h);
    let digits = if n == 6 || n == 8 {
        match prefix_with_bytes(h, 6) {
            Some(p) => {
                lemma_prefix_bytes_exact(h, 6);
                p
            },
            None => Seq::empty(),
        }
    } else {
        seq![h[0], h[0], h[1], h[1], h[2], h[2]]
    };
    if hex_color_value(s) is Some && (n == 6 || n == 8 || n == 3 || n == 4) {
        let d = if digits.len() > 0 && digits[0] == '+' {
            digits.drop_first()
        } else {
            digits
        };
        assert(all_digits(d, 16));
        if n == 6 || n == 8 {
            assert forall|i: int| 0 <= i < digits.len() implies (digits[i] as u32) < 0x80 by {
                if digits.len() > 0 && digits[0] == '+' {
                    if i > 0 {
                        assert(digit_value(d[i - 1], 16) is Some);
                    }
                } else {
                    assert(digit_value(d[i], 16) is Some);
                }
            }
            lemma_ascii_text(digits);
        }
        assert(d.len() <= 6);
        lemma_hex_digits_bound(d);
        reveal_with_fuel(pow, 7);
        assert(pow(16, d.len()) <= 0x100_0000);
    }
}

/// A colour's hex text reads back as the colour: parsing `#rrggbb` (as a
/// hex colour or as a colour string) gives the colour's 24 low bits, and
/// the text is one on which parsing cannot fail.
pub proof fn lemma_hex_color_round_trip(color: u32)
    ensures
        !hex_color_panics(hex_color_text(color)),
        hex_color_value(hex_color_text(color)) == Some(color & 0xFF_FFFF),
        color_string_value(hex_color_text(color)) == Some(color & 0xFF_FFFF),
{
    let r = red_of(color) as int;
    let g = green_of(color) as int;
    let b = blue_of(color) as int;
    lemma_hex_digit_value(r / 16);
    lemma_hex_digit_value(r % 16);
    lemma_hex_digit_value(g / 16);
    lemma_hex_digit_value(g % 16);
    lemma_hex_digit_value(b / 16);
    lemma_hex_digit_value(b % 16);
    let t = hex_color_text(color);
    let h = t.drop_first();
    let c0 = hex_digit_char(r / 16);
    let c1 = hex_digit_char(r % 16);
    let c2 = hex_digit_char(g / 16);
    let c3 = hex_digit_char(g % 16);
    let c4 = hex_digit_char(b / 16);
    let c5 = hex_digit_char(b % 16);
    assert(h =~= seq![c0, c1, c2, c3, c4, c5]);
    assert(strip_hashes(h) == h);
    assert(strip_hashes(t) == h);
    lemma_ascii_text(h);
    assert(utf8_len(h) == 6);
    assert(all_digits(h, 16));
    let h1 = seq![c0];
    let h2 = seq![c0, c1];
    let h3 = seq![c0, c1, c2];
    let h4 = seq![c0, c1, c2, c3];
    let h5 = seq![c0, c1, c2, c3, c4];
    assert(h1.drop_last() =~= Seq::<char>::empty());
    assert(h2.drop_last() =~= h1);
    assert(h3.drop_last() =~= h2);
    assert(h4.drop_last() =~= h3);
    assert(h5.drop_last() =~= h4);
    assert(h.drop_last() =~= h5);
    assert(digits_value(Seq::<char>::empty(), 16) == 0);
    assert(h1.last() == c0 && h2.last() == c1 && h3.last() == c2 && h4.last() == c3 && h5.last()
        == c4 && h.last() == c5);
    assert(digits_value(h1, 16) == r / 16);
    assert(digits_value(h2, 16) == r);
    assert(digits_value(h3, 16) == r * 16 + g / 16);
    assert(digits_value(h4, 16) == r * 256 + g);
    assert(digits_value(h5, 16) == r * 4096 + g * 16 + b / 16);
    assert(digits_value(h, 16) == r * 65536 + g * 256 + b);
    assert(((color >> 16u32) & 0xFF) * 0x10000 + ((color >> 8u32) & 0xFF) * 0x100 + (color & 0xFF)
        == color & 0xFF_FFFF) by (bit_vector);
    assert(red_of(color) as u32 == (color >> 16u32) & 0xFF) by (bit_vector);
    assert(green_of(color) as u32 == (color >> 8u32) & 0xFF) by (bit_vector);
    assert(blue_of(color) as u32 == color & 0xFF) by (bit_vector);
    assert(r * 65536 + g * 256 + b == (color & 0xFF_FFFF) as int);
    assert(parse_unsigned_spec(h, 16, 0xFFFF_FFFF) == Some((r * 65536 + g * 256 + b) as nat));
    assert(prefix_with_bytes(h, 6) == Some(h));
}

/// A thread's display text always starts with `Thread(`, its hex colour
/// and `)`.
pub proof fn lemma_display_starts_with_hex(t: EmbThread)
    ensures
        thread_display_text(t).len() >= 15,
        thread_display_text(t).take(7) == seq!['T', 'h', 'r', 'e', 'a', 'd', '('],
        thread_display_text(t).subrange(7, 14) == hex_color_text(t.color),
        thread_display_text(t)[14] == ')',
{
    let base = seq!['T', 'h', 'r', 'e', 'a', 'd', '('] + hex_color_text(t.color) + seq![')'];
    let s = thread_display_text(t);
    assert(base.len() == 15);
    assert(s.len() >= 15 && s.take(15) =~= base) by {
        let with_desc = match t.description {
            Some(d) => base + seq![' ', '-', ' '] + d@,
            None => base,
        };
        assert(with_desc.len() >= 15 && with_desc.take(15) =~= base);
        assert(s.len() >= with_desc.len() && s.take(with_desc.len() as int) =~= with_desc);
    }
    assert(s.take(7) =~= s.take(15).take(7));
    assert(s.subrange(7, 14) =~= s.take(15).subrange(7, 14));
    assert(s[14] == s.take(15)[14]);
}

/// Whether `i` is the first palette position of least colour distance to `color`.
pub open spec fn is_nearest_index(color: u32, palette: Seq<EmbThread>, i: int) -> bool {
    &&& 0 <= i < palette.len()
    &&& forall|j: int|
        0 <= j < palette.len() ==> color_distance_spec(color, palette[i].color)
            <= #[trigger] color_distance_spec(color, palette[j].color)
    &&& forall|j: int|
        0 <= j < i ==> color_distance_spec(color, palette[i].color)
            < #[trigger] color_distance_spec(color, palette[j].color)
}

/// A string holding the given characters of a literal.
fn owned(s: &str) -> (r: String)
    ensures
        r@ == s@,
{
    s.to_owned()
}

/// The lowercase hex digit of a value below 16.
fn hex_digit(n: u8) -> (c: char)
    requires
        n < 16,
    ensures
        c == hex_digit_char(n as int),
{
    if n < 10 {
        (48u8 + n) as char
    } else {
        (87u8 + n) as char
    }
}

/// Find the nearest color in a palette
pub fn find_nearest_color_index(color: u32, palette: &[EmbThread]) -> (r: Option<usize>)
    ensures
        r is None <==> palette@.len() == 0,
        r matches Some(i) ==> is_nearest_index(color, palette@, i as int),
{
    if palette.len() == 0 {
        return None;
    }
    let mut closest_index: usize = 0;
    let mut closest_distance: u32 = u32::MAX;
    let mut i: usize = 0;
    while i < palette.len()
        invariant
            i <= palette@.len(),
            palette@.len() > 0,
            i == 0 ==> closest_distance == u32::MAX && closest_index == 0,
            i > 0 ==> closest_index < i && closest_distance == color_distance_spec(
                color,
                palette@[closest_index as int].color,
            ),
            i > 0 ==> forall|j: int|
                0 <= j < i ==> closest_distance <= #[trigger] color_distance_spec(
                    color,
                    palette@[j].color,
                ),
            i > 0 ==> forall|j: int|
                0 <= j < closest_index ==> closest_distance < #[trigger] color_distance_spec(
                    color,
                    palette@[j].color,
                ),
        decreases palette@.len() - i,
    {
        let dist = color_distance(color, palette[i].color);
        proof {
            let (r1, g1, b1) = (red_of(color) as int, green_of(color) as int, blue_of(color) as int);
            let c2 = palette@[i as int].color;
            lemma_component_distance_fits(
                r1,
                g1,
                b1,
                red_of(c2) as int,
                green_of(c2) as int,
                blue_of(c2) as int,
            );
        }
        if dist < closest_distance {
            closest_distance = dist;
            closest_index = i;
            if dist == 0 {
                proof {
                    assert forall|j: int| 0 <= j < palette@.len() implies closest_distance
                        <= #[trigger] color_distance_spec(color, palette@[j].color) by {}
                }
                return Some(closest_index);
            }
        }
        i = i + 1;
    }
    Some(closest_index)
}

impl EmbThread {
    /// Whether the attribute list is well formed.
    pub open spec fn wf(&self) -> bool {
        self.attributes.wf()
    }

    /// The attributes as key/value character sequences, in insertion order.
    pub open spec fn attributes_view(&self) -> Seq<(Seq<char>, Seq<char>)> {
        attr_view(self.attributes@)
    }

    /// Create a new thread with a given color (its low 24 bits)
    pub fn new(color: u32) -> (t: Self)
        ensures
            t.color == color & 0xFF_FFFF,
            t.description is None,
            t.catalog_number is None,
            t.details is None,
            t.brand is None,
            t.chart is None,
            t.weight is None,
            t.wf(),
            t.attributes@.len() == 0,
    {
        EmbThread {
            color: color & 0xFF_FFFF,
            description: None,
            catalog_number: None,
            details: None,
            brand: None,
            chart: None,
            weight: None,
            attributes: AssocList::new(),
        }
    }

    /// Create a thread from a color string (hex or named color)
    pub fn from_string(color_str: &str) -> (r: Result<Self, Error>)
        requires
            !is_random_keyword(color_str@) && reads_as_hex(color_str@) ==> !hex_color_panics(
                color_str@,
            ),
        ensures
            is_random_keyword(color_str@) ==> r is Ok,
            !is_random_keyword(color_str@) ==> (r is Err <==> color_string_value(color_str@) is None),
            !is_random_keyword(color_str@) ==> (r matches Ok(t) ==> (color_string_value(
                color_str@,
            ) matches Some(v) && t.color == v & 0xFF_FFFF)),
            r matches Ok(t) ==> t.description is None && t.catalog_number is None && t.brand is None
                && t.chart is None && t.weight is None && t.details is None && t.wf()
                && t.attributes@.len() == 0,
            r matches Err(e) ==> e is InvalidColor,
    {
        let color = parse_color_string(color_str)?;
        Ok(Self::new(color))
    }

    /// Create a thread from RGB values
    pub fn from_rgb(r: u8, g: u8, b: u8) -> (t: Self)
        ensures
            t.color == rgb_value(r, g, b),
            t.description is None,
            t.catalog_number is None,
            t.details is None,
            t.brand is None,
            t.chart is None,
            t.weight is None,
            t.wf(),
            t.attributes@.len() == 0,
    {
        let c = color_rgb(r, g, b);
        assert(c & 0xFF_FFFF == c) by (bit_vector)
            requires
                c <= 0xFF_FFFF,
        ;
        Self::new(c)
    }

    /// Set color from hex string; on an error the thread is unchanged
    pub fn set_hex_color(&mut self, hex_string: &str) -> (r: Result<(), Error>)
        requires
            !hex_color_panics(hex_string@),
        ensures
            r is Ok <==> hex_color_value(hex_string@) is Some,
            r is Ok ==> final(self).color == hex_color_value(hex_string@).unwrap(),
            r is Err ==> final(self).color == old(self).color,
            r matches Err(e) ==> e is InvalidColor,
            final(self).description == old(self).description,
            final(self).catalog_number == old(self).catalog_number,
            final(self).details == old(self).details,
            final(self).brand == old(self).brand,
            final(self).chart == old(self).chart,
            final(self).weight == old(self).weight,
            final(self).attributes == old(self).attributes,
    {
        let c = parse_color_hex(hex_string)?;
        self.color = c;
        Ok(())
    }

    /// Get color as hex string (`#rrggbb`, lowercase)
    pub fn hex_color(&self) -> (s: String)
        ensures
            s@ == hex_color_text(self.color),
    {
        let r = self.red();
        let g = self.green();
        let b = self.blue();
        let mut s = String::new();
        push_char(&mut s, '#');
        push_char(&mut s, hex_digit(r / 16));
        push_char(&mut s, hex_digit(r % 16));
        push_char(&mut s, hex_digit(g / 16));
        push_char(&mut s, hex_digit(g % 16));
        push_char(&mut s, hex_digit(b / 16));
        push_char(&mut s, hex_digit(b % 16));
        assert(s@ =~= hex_color_text(self.color));
        s
    }

    /// Get red component (0-255)
    pub fn red(&self) -> (v: u8)
        ensures
            v == red_of(self.color),
    {
        ((self.color >> 16u32) & 0xFF) as u8
    }

    /// Get green component (0-255)
    pub fn green(&self) -> (v: u8)
        ensures
            v == green_of(self.color),
    {
        ((self.color >> 8u32) & 0xFF) as u8
    }

    /// Get blue component (0-255)
    pub fn blue(&self) -> (v: u8)
        ensures
            v == blue_of(self.color),
    {
        (self.color & 0xFF) as u8
    }

    /// Get opaque color with alpha channel
    pub fn opaque_color(&self) -> (v: u32)
        ensures
            v == 0xFF00_0000u32 | self.color,
    {
        0xFF00_0000u32 | self.color
    }

    /// Find the nearest color in a palette; returns the index of the closest thread
    pub fn find_nearest_color_index(&self, palette: &[EmbThread]) -> (r: Option<usize>)
        ensures
            r is None <==> palette@.len() == 0,
            r matches Some(i) ==> is_nearest_index(self.color, palette@, i as int),
    {
        find_nearest_color_index(self.color, palette)
    }

    /// Find nearest matching thread in a palette (red-mean colour distance)
    pub fn find_nearest_in_palette(&self, palette: &[EmbThread]) -> (r: Option<usize>)
        ensures
            r is None <==> palette@.len() == 0,
            r matches Some(i) ==> is_nearest_index(self.color, palette@, i as int),
    {
        find_nearest_color_index(self.color, palette)
    }

    /// Find nearest matching thread whose colour distance is at most `threshold`
    pub fn find_nearest_within_threshold(&self, palette: &[EmbThread], threshold: u32) -> (r:
        Option<usize>)
        ensures
            r matches Some(i) ==> is_nearest_index(self.color, palette@, i as int)
                && color_distance_spec(self.color, palette@[i as int].color) <= threshold,
            r is None ==> palette@.len() == 0 || forall|j: int|
                0 <= j < palette@.len() ==> #[trigger] color_distance_spec(
                    self.color,
                    palette@[j].color,
                ) > threshold,
    {
        match find_nearest_color_index(self.color, palette) {
            None => None,
            Some(i) => {
                let d = color_distance(self.color, palette[i].color);
                if d <= threshold {
                    Some(i)
                } else {
                    None
                }
            },
        }
    }

    /// Builder method: set description
    pub fn with_description(self, desc: &str) -> (t: Self)
        ensures
            opt_view(t.description) == Some(desc@),
            t.color == self.color && t.catalog_number == self.catalog_number && t.details
                == self.details && t.brand == self.brand && t.chart == self.chart && t.weight
                == self.weight && t.attributes == self.attributes,
    {
        let mut t = self;
        t.description = Some(owned(desc));
        t
    }

    /// Builder method: set catalog number
    pub fn with_catalog_number(self, catalog: &str) -> (t: Self)
        ensures
            opt_view(t.catalog_number) == Some(catalog@),
            t.color == self.color && t.description == self.description && t.details
                == self.details && t.brand == self.brand && t.chart == self.chart && t.weight
                == self.weight && t.attributes == self.attributes,
    {
        let mut t = self;
        t.catalog_number = Some(owned(catalog));
        t
    }

    /// Builder method: set brand
    pub fn with_brand(self, brand: &str) -> (t: Self)
        ensures
            opt_view(t.brand) == Some(brand@),
            t.color == self.color && t.description == self.description && t.catalog_number
                == self.catalog_number && t.details == self.details && t.chart == self.chart
                && t.weight == self.weight && t.attributes == self.attributes,
    {
        let mut t = self;
        t.brand = Some(owned(brand));
        t
    }

    /// Builder method: set chart
    pub fn with_chart(self, chart: &str) -> (t: Self)
        ensures
            opt_view(t.chart) == Some(chart@),
            t.color == self.color && t.description == self.description && t.catalog_number
                == self.catalog_number && t.details == self.details && t.brand == self.brand
                && t.weight == self.weight && t.attributes == self.attributes,
    {
        let mut t = self;
        t.chart = Some(owned(chart));
        t
    }

    /// Builder method: set weight
    pub fn with_weight(self, weight: &str) -> (t: Self)
        ensures
            opt_view(t.weight) == Some(weight@),
            t.color == self.color && t.description == self.description && t.catalog_number
                == self.catalog_number && t.details == self.details && t.brand == self.brand
                && t.chart == self.chart && t.attributes == self.attributes,
    {
        let mut t = self;
        t.weight = Some(owned(weight));
        t
    }

    /// Builder method: add a custom attribute
    pub fn with_attribute(self, key: &str, value: &str) -> (t: Self)
        requires
            self.wf(),
        ensures
            t.wf(),
            crate::assoc::lookup(t.attributes@, key@) matches Some(v) && v@ == value@,
            forall|k: Seq<char>|
                k != key@ ==> #[trigger] crate::assoc::lookup(t.attributes@, k)
                    == crate::assoc::lookup(self.attributes@, k),
            t.attributes@.len() == self.attributes@.len() + if crate::assoc::has_key(
                self.attributes@,
                key@,
            ) {
                0int
            } else {
                1int
            },
            t.color == self.color && t.description == self.description && t.catalog_number
                == self.catalog_number && t.details == self.details && t.brand == self.brand
                && t.chart == self.chart && t.weight == self.weight,
    {
        let mut t = self;
        t.set_attribute(key, value);
        t
    }

    /// Get an attribute value by key
    pub fn get_attribute(&self, key: &str) -> (r: Option<&str>)
        requires
            self.wf(),
        ensures
            r matches Some(v) ==> crate::assoc::lookup(self.attributes@, key@) matches Some(w)
                && w@ == v@,
            r is None ==> crate::assoc::lookup(self.attributes@, key@) is None,
    {
        match self.attributes.get(key) {
            Some(v) => Some(v.as_str()),
            None => None,
        }
    }

    /// Set an attribute
    pub fn set_attribute(&mut self, key: &str, value: &str)
        requires
            old(self).wf(),
        ensures
            final(self).wf(),
            crate::assoc::lookup(final(self).attributes@, key@) matches Some(v) && v@ == value@,
            forall|k: Seq<char>|
                k != key@ ==> #[trigger] crate::assoc::lookup(final(self).attributes@, k)
                    == crate::assoc::lookup(old(self).attributes@, k),
            final(self).attributes@.len() == old(self).attributes@.len() + if crate::assoc::has_key(
                old(self).attributes@,
                key@,
            ) {
                0int
            } else {
                1int
            },
            final(self).color == old(self).color && final(self).description
                == old(self).description && final(self).catalog_number == old(self).catalog_number
                && final(self).details == old(self).details && final(self).brand == old(self).brand
                && final(self).chart == old(self).chart && final(self).weight == old(self).weight,
    {
        let v = owned(value);
        proof {
            crate::assoc::lemma_store(self.attributes@, key@, v);
        }
        self.attributes.insert(owned(key), v);
    }

    /// Remove an attribute, returning its value
    pub fn remove_attribute(&mut self, key: &str) -> (r: Option<String>)
        requires
            old(self).wf(),
        ensures
            final(self).wf(),
            r == crate::assoc::lookup(old(self).attributes@, key@),
            crate::assoc::lookup(final(self).attributes@, key@) is None,
            forall|k: Seq<char>|
                k != key@ ==> #[trigger] crate::assoc::lookup(final(self).attributes@, k)
                    == crate::assoc::lookup(old(self).attributes@, k),
            final(self).color == old(self).color && final(self).description
                == old(self).description && final(self).catalog_number == old(self).catalog_number
                && final(self).details == old(self).details && final(self).brand == old(self).brand
                && final(self).chart == old(self).chart && final(self).weight == old(self).weight,
    {
        proof {
            crate::assoc::lemma_erase(self.attributes@, key@);
        }
        self.attributes.remove(key)
    }

    /// Check if thread has an attribute
    pub fn has_attribute(&self, key: &str) -> (b: bool)
        requires
            self.wf(),
        ensures
            b == crate::assoc::has_key(self.attributes@, key@),
    {
        self.attributes.contains_key(key)
    }

    /// Get all attribute keys (in insertion order)
    pub fn attribute_keys(&self) -> (keys: Vec<String>)
        ensures
            keys@.len() == self.attributes@.len(),
            forall|i: int| 0 <= i < keys@.len() ==> (#[trigger] keys@[i])@ == self.attributes@[i].0,
    {
        let mut keys: Vec<String> = Vec::new();
        let mut i: usize = 0;
        while i < self.attributes.len()
            invariant
                i <= self.attributes@.len(),
                keys@.len() == i,
                forall|j: int| 0 <= j < i ==> (#[trigger] keys@[j])@ == self.attributes@[j].0,
            decreases self.attributes@.len() - i,
        {
            let (k, _) = self.attributes.entry_at(i);
            keys.push(k.clone());
            i = i + 1;
        }
        keys
    }

    /// How the thread is displayed: `Thread(#rrggbb)`, then ` - description`, then
    /// the brand and catalog number in brackets
    pub fn to_display_string(&self) -> (s: String)
        ensures
            s@ == thread_display_text(*self),
    {
        let hex = self.hex_color();
        let mut s = concat("Thread(", hex.as_str());
        s = concat(s.as_str(), ")");
        proof {
            reveal_strlit("Thread(");
            reveal_strlit(")");
            reveal_strlit(" - ");
            reveal_strlit(" [");
            reveal_strlit(" #");
            reveal_strlit("]");
            reveal_strlit(" [#");
        }
        assert(s@ =~= seq!['T', 'h', 'r', 'e', 'a', 'd', '('] + hex_color_text(self.color) + seq![
            ')',
        ]);
        let ghost base = s@;
        match &self.description {
            Some(d) => {
                s = concat(s.as_str(), " - ");
                s = concat(s.as_str(), d.as_str());
                assert(s@ =~= base + seq![' ', '-', ' '] + d@);
            },
            None => {},
        }
        let ghost with_desc = s@;
        match (&self.brand, &self.catalog_number) {
            (Some(b), Some(c)) => {
                s = concat(s.as_str(), " [");
                s = concat(s.as_str(), b.as_str());
                s = concat(s.as_str(), " #");
                s = concat(s.as_str(), c.as_str());
                s = concat(s.as_str(), "]");
                assert(s@ =~= with_desc + seq![' ', '['] + b@ + seq![' ', '#'] + c@ + seq![']']);
            },
            (Some(b), None) => {
                s = concat(s.as_str(), " [");
                s = concat(s.as_str(), b.as_str());
                s = concat(s.as_str(), "]");
                assert(s@ =~= with_desc + seq![' ', '['] + b@ + seq![']']);
            },
            (None, Some(c)) => {
                s = concat(s.as_str(), " [#");
                s = concat(s.as_str(), c.as_str());
                s = concat(s.as_str(), "]");
                assert(s@ =~= with_desc + seq![' ', '[', '#'] + c@ + seq![']']);
            },
            (None, None) => {},
        }
        s
    }
}

impl Default for EmbThread {
    fn default() -> (t: Self)
        ensures
            t.color == 0,
            t.description is None,
            t.catalog_number is None,
            t.details is None,
            t.brand is None,
            t.chart is None,
            t.weight is None,
            t.wf(),
            t.attributes@.len() == 0,
    {
        let t = Self::new(0);
        assert(0u32 & 0xFF_FFFF == 0) by (bit_vector);
        t
    }
}

impl PartialEq for EmbThread {
    fn eq(&self, other: &Self) -> (r: bool) {
        self.color == other.color
    }
}

impl vstd::std_specs::cmp::PartialEqSpecImpl for EmbThread {
    open spec fn obeys_eq_spec() -> bool {
        true
    }

    open spec fn eq_spec(&self, other: &Self) -> bool {
        self.color == other.color
    }
}

impl Eq for EmbThread {}

} // verus!
