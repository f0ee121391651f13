//! Colours of the rendered image and the kind of surface they need.

use vstd::prelude::*;
use crate::color::Rgba;
use crate::options::{ParseError, chars_of};

verus! {

/// Value of a hexadecimal digit.
pub open spec fn hex_digit(c: char) -> Option<u8> {
    if '0' <= c <= '9' {
        Some(((c as u32) - ('0' as u32)) as u8)
    } else if 'a' <= c <= 'f' {
        Some(((c as u32) - ('a' as u32) + 10) as u8)
    } else if 'A' <= c <= 'F' {
        Some(((c as u32) - ('A' as u32) + 10) as u8)
    } else {
        None
    }
}

fn hex_digit_value(c: char) -> (r: Option<u8>)
    ensures
        r == hex_digit(c),
{
    if '0' <= c && c <= '9' {
        Some((c as u32 - '0' as u32) as u8)
    } else if 'a' <= c && c <= 'f' {
        Some((c as u32 - 'a' as u32 + 10) as u8)
    } else if 'A' <= c && c <= 'F' {
        Some((c as u32 - 'A' as u32 + 10) as u8)
    } else {
        None
    }
}

/// The byte written by the two hex digits at `i` and `i + 1`.
pub open spec fn hex_byte(d: Seq<char>, i: int) -> Option<u8> {
    match (hex_digit(d[i]), hex_digit(d[i + 1])) {
        (Some(h), Some(l)) => Some((h * 16 + l) as u8),
        _ => None,
    }
}

/// The digits of a colour after an optional leading `#`.
pub open spec fn color_digits(s: Seq<char>) -> Seq<char> {
    if s.len() > 0 && s[0] == '#' {
        s.drop_first()
    } else {
        s
    }
}

/// A colour written `rrggbb` or `rrggbbaa` in hex, optionally after a `#`;
/// without an alpha pair the colour is opaque.
pub open spec fn color_of(s: Seq<char>) -> Option<Rgba> {
    let d = color_digits(s);
    if d.len() != 6 && d.len() != 8 {
        None
    } else {
        match (hex_byte(d, 0), hex_byte(d, 2), hex_byte(d, 4)) {
            (Some(r), Some(g), Some(b)) => if d.len() == 6 {
                Some(Rgba { red: r, green: g, blue: b, alpha: 255 })
            } else {
                match hex_byte(d, 6) {
                    Some(a) => Some(Rgba { red: r, green: g, blue: b, alpha: a }),
                    None => None,
                }
            },
            _ => None,
        }
    }
}

fn hex_pair(d: &Vec<char>, i: usize) -> (r: Option<u8>)
    requires
        i + 1 < d.len(),
    ensures
        r == hex_byte(d@, i as int),
{
    match (hex_digit_value(d[i]), hex_digit_value(d[i + 1])) {
        (Some(h), Some(l)) => Some(h * 16 + l),
        _ => None,
    }
}

/// Reads a colour option such as `#FFFFFF` or `00000080`.
pub fn parse_color(s: &str) -> (r: Result<Rgba, ParseError>)
    ensures
        r == match color_of(s@) {
            Some(c) => Ok::<Rgba, ParseError>(c),
            None => Err(ParseError::InvalidNumber),
        },
{
    let all = chars_of(s);
    let mut d: Vec<char> = Vec::new();
    let start: usize = if all.len() > 0 && all[0] == '#' {
        1
    } else {
        0
    };
    let mut i: usize = start;
    while i < all.len()
        invariant
            start <= i <= all.len(),
            all@ == s@,
            start == (if s@.len() > 0 && s@[0] == '#' {
                1usize
            } else {
                0usize
            }),
            d@ =~= all@.subrange(start as int, i as int),
        decreases all.len() - i,
    {
        d.push(all[i]);
        i = i + 1;
    }
    assert(d@ =~= color_digits(s@));
    if d.len() != 6 && d.len() != 8 {
        return Err(ParseError::InvalidNumber);
    }
    let r = hex_pair(&d, 0);
    let g = hex_pair(&d, 2);
    let b = hex_pair(&d, 4);
    match (r, g, b) {
        (Some(r), Some(g), Some(b)) => {
            if d.len() == 6 {
                Ok(Rgba { red: r, green: g, blue: b, alpha: 255 })
            } else {
                match hex_pair(&d, 6) {
                    Some(a) => Ok(Rgba { red: r, green: g, blue: b, alpha: a }),
                    None => Err(ParseError::InvalidNumber),
                }
            }
        },
        _ => Err(ParseError::InvalidNumber),
    }
}

/// What the pixels of a surface hold.
#[derive(Clone, Copy, Debug, PartialEq, Eq, Structural)]
pub enum Content {
    Alpha,
    Color,
    ColorAlpha,
}

pub open spec fn is_gray(c: Rgba) -> bool {
    c.red == c.green && c.green == c.blue
}

/// The content a surface needs: a translucent background needs colour and
/// alpha; an alpha-only surface needs colour when the output is annotated or
/// either colour is not a shade of gray.
pub fn surface_content(content: Content, annotate: bool, background: Rgba, foreground: Rgba) -> (r:
    Content)
    ensures
        r == (if background.alpha != 255 {
            Content::ColorAlpha
        } else if content == Content::Alpha && (annotate || !is_gray(background) || !is_gray(
            foreground,
        )) {
            Content::Color
        } else {
            content
        }),
{
    let mut c = content;
    if c == Content::Alpha {
        if annotate || background.red != background.green || background.green != background.blue
            || foreground.red != foreground.green || foreground.green != foreground.blue {
            c = Content::Color;
        }
    }
    if background.alpha != 255 {
        c = Content::ColorAlpha;
    }
    c
}

} // verus!
