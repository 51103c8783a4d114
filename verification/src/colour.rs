//! Colour parsing for the colour modifier: a `#rrggbb` form, a palette
//! index written plain or as `colour<n>`, or a basic colour name, forced to
//! its RGB value.

use vstd::prelude::*;
use vstd::string::StringSliceAdditionalSpecFns;
use crate::nums::{all_digits, dec_value};
use crate::bytes::{bytes_eq, lit};

verus! {

/// Value of a hex digit, or 16 for anything else.
pub open spec fn hex_val(c: u8) -> int {
    if '0' as u8 <= c <= '9' as u8 {
        c - 48
    } else if 'a' as u8 <= c <= 'f' as u8 {
        c - 87
    } else if 'A' as u8 <= c <= 'F' as u8 {
        c - 55
    } else {
        16
    }
}

fn hex_val_exec(c: u8) -> (r: u32)
    ensures
        r == hex_val(c),
{
    if '0' as u8 <= c && c <= '9' as u8 {
        (c - 48) as u32
    } else if 'a' as u8 <= c && c <= 'f' as u8 {
        (c - 87) as u32
    } else if 'A' as u8 <= c && c <= 'F' as u8 {
        (c - 55) as u32
    } else {
        16
    }
}

/// The RGB value of one of the 256 palette entries.
pub open spec fn spec_palette_rgb(n: int) -> int {
    if n == 0 {
        0x000000
    } else if n == 1 {
        0x800000
    } else if n == 2 {
        0x008000
    } else if n == 3 {
        0x808000
    } else if n == 4 {
        0x000080
    } else if n == 5 {
        0x800080
    } else if n == 6 {
        0x008080
    } else if n == 7 {
        0xc0c0c0
    } else if n == 8 {
        0x808080
    } else if n == 9 {
        0xff0000
    } else if n == 10 {
        0x00ff00
    } else if n == 11 {
        0xffff00
    } else if n == 12 {
        0x0000ff
    } else if n == 13 {
        0xff00ff
    } else if n == 14 {
        0x00ffff
    } else if n == 15 {
        0xffffff
    } else if 16 <= n <= 231 {
        let c = n - 16;
        let r = cube_level(c / 36);
        let g = cube_level((c / 6) % 6);
        let b = cube_level(c % 6);
        r * 0x10000 + g * 0x100 + b
    } else {
        let v = 8 + 10 * (n - 232);
        v * 0x10000 + v * 0x100 + v
    }
}

/// One axis of the 6x6x6 colour cube.
pub open spec fn cube_level(v: int) -> int {
    if v == 0 {
        0
    } else {
        55 + 40 * v
    }
}

fn cube_level_exec(v: u32) -> (r: u32)
    requires
        v <= 5,
    ensures
        r == cube_level(v as int),
{
    if v == 0 {
        0
    } else {
        55 + 40 * v
    }
}

fn palette_rgb(n: u32) -> (r: u32)
    requires
        n <= 255,
    ensures
        r == spec_palette_rgb(n as int),
        r <= 0xffffff,
{
    if n == 0 {
        0x000000
    } else if n == 1 {
        0x800000
    } else if n == 2 {
        0x008000
    } else if n == 3 {
        0x808000
    } else if n == 4 {
        0x000080
    } else if n == 5 {
        0x800080
    } else if n == 6 {
        0x008080
    } else if n == 7 {
        0xc0c0c0
    } else if n == 8 {
        0x808080
    } else if n == 9 {
        0xff0000
    } else if n == 10 {
        0x00ff00
    } else if n == 11 {
        0xffff00
    } else if n == 12 {
        0x0000ff
    } else if n == 13 {
        0xff00ff
    } else if n == 14 {
        0x00ffff
    } else if n == 15 {
        0xffffff
    } else if n <= 231 {
        let c = n - 16;
        let r = cube_level_exec(c / 36);
        let g = cube_level_exec((c / 6) % 6);
        let b = cube_level_exec(c % 6);
        r * 0x10000 + g * 0x100 + b
    } else {
        let v = 8 + 10 * (n - 232);
        v * 0x10000 + v * 0x100 + v
    }
}

/// The RGB value a colour string denotes: `#rrggbb` directly, a palette
/// index written plain or as `colour<n>` or `color<n>`, or one of the eight
/// basic names.
pub open spec fn spec_colour_rgb(s: Seq<u8>) -> Option<int> {
    if s.len() == 7 && s[0] == '#' as u8 {
        if hex_val(s[1]) < 16 && hex_val(s[2]) < 16 && hex_val(s[3]) < 16 && hex_val(s[4]) < 16
            && hex_val(s[5]) < 16 && hex_val(s[6]) < 16 {
            Some(
                hex_val(s[1]) * 0x100000 + hex_val(s[2]) * 0x10000 + hex_val(s[3]) * 0x1000
                    + hex_val(s[4]) * 0x100 + hex_val(s[5]) * 0x10 + hex_val(s[6]),
            )
        } else {
            None
        }
    } else if s.len() >= 1 && all_digits(s) && dec_value(s) <= 255 {
        Some(spec_palette_rgb(dec_value(s)))
    } else if s.len() > 6 && s.subrange(0, 6) == ("colour").spec_bytes() {
        spec_palette_index(s.skip(6))
    } else if s.len() > 5 && s.subrange(0, 5) == ("color").spec_bytes() {
        spec_palette_index(s.skip(5))
    } else if s == ("black").spec_bytes() {
        Some(spec_palette_rgb(0))
    } else if s == ("red").spec_bytes() {
        Some(spec_palette_rgb(1))
    } else if s == ("green").spec_bytes() {
        Some(spec_palette_rgb(2))
    } else if s == ("yellow").spec_bytes() {
        Some(spec_palette_rgb(3))
    } else if s == ("blue").spec_bytes() {
        Some(spec_palette_rgb(4))
    } else if s == ("magenta").spec_bytes() {
        Some(spec_palette_rgb(5))
    } else if s == ("cyan").spec_bytes() {
        Some(spec_palette_rgb(6))
    } else if s == ("white").spec_bytes() {
        Some(spec_palette_rgb(7))
    } else {
        None
    }
}

pub open spec fn spec_palette_index(d: Seq<u8>) -> Option<int> {
    if d.len() >= 1 && all_digits(d) && dec_value(d) <= 255 {
        Some(spec_palette_rgb(dec_value(d)))
    } else {
        None
    }
}

fn palette_index(d: &[u8]) -> (r: Option<u32>)
    ensures
        match r {
            Some(v) => spec_palette_index(d@) == Some(v as int) && v <= 0xffffff,
            None => spec_palette_index(d@) is None,
        },
{
    if d.len() == 0 {
        return None;
    }
    match crate::nums::parse_digits(d) {
        None => None,
        Some(v) => {
            if v > 255 {
                None
            } else {
                Some(palette_rgb(v as u32))
            }
        },
    }
}

/// Parse a colour string and force it to RGB.
pub fn colour_rgb(s: &[u8]) -> (r: Option<u32>)
    ensures
        match r {
            Some(v) => spec_colour_rgb(s@) == Some(v as int) && v <= 0xffffff,
            None => spec_colour_rgb(s@) is None,
        },
{
    if s.len() == 7 && s[0] == '#' as u8 {
        let h1 = hex_val_exec(s[1]);
        let h2 = hex_val_exec(s[2]);
        let h3 = hex_val_exec(s[3]);
        let h4 = hex_val_exec(s[4]);
        let h5 = hex_val_exec(s[5]);
        let h6 = hex_val_exec(s[6]);
        if h1 < 16 && h2 < 16 && h3 < 16 && h4 < 16 && h5 < 16 && h6 < 16 {
            Some(h1 * 0x100000 + h2 * 0x10000 + h3 * 0x1000 + h4 * 0x100 + h5 * 0x10 + h6)
        } else {
            None
        }
    } else if s.len() >= 1 && {
        let d = crate::nums::parse_digits(s);
        d.is_some() && d.unwrap() <= 255
    } {
        let v = crate::nums::parse_digits(s).unwrap();
        Some(palette_rgb(v as u32))
    } else {
        let colour_p = lit("colour");
        let color_p = lit("color");
        if s.len() > 6 && bytes_eq(&s[0..6], colour_p.as_slice()) {
            let r = palette_index(&s[6..s.len()]);
            proof {
                assert(s@.subrange(6, s@.len() as int) =~= s@.skip(6));
            }
            r
        } else if s.len() > 5 && bytes_eq(&s[0..5], color_p.as_slice()) {
            let r = palette_index(&s[5..s.len()]);
            proof {
                assert(s@.subrange(5, s@.len() as int) =~= s@.skip(5));
            }
            r
        } else if bytes_eq(s, lit("black").as_slice()) {
            Some(palette_rgb(0))
        } else if bytes_eq(s, lit("red").as_slice()) {
            Some(palette_rgb(1))
        } else if bytes_eq(s, lit("green").as_slice()) {
            Some(palette_rgb(2))
        } else if bytes_eq(s, lit("yellow").as_slice()) {
            Some(palette_rgb(3))
        } else if bytes_eq(s, lit("blue").as_slice()) {
            Some(palette_rgb(4))
        } else if bytes_eq(s, lit("magenta").as_slice()) {
            Some(palette_rgb(5))
        } else if bytes_eq(s, lit("cyan").as_slice()) {
            Some(palette_rgb(6))
        } else if bytes_eq(s, lit("white").as_slice()) {
            Some(palette_rgb(7))
        } else {
            None
        }
    }
}

} // verus!
