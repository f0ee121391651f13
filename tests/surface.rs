use hb_util::options::buffer_flags;
use hb_util::surface::{parse_color, surface_content, Content};
use hb_util::{ParseError, Rgba};

fn rgba(red: u8, green: u8, blue: u8, alpha: u8) -> Rgba {
    Rgba { red, green, blue, alpha }
}

#[test]
fn colours_with_and_without_hash() {
    assert_eq!(parse_color("#FFFFFF"), Ok(rgba(255, 255, 255, 255)));
    assert_eq!(parse_color("000000"), Ok(rgba(0, 0, 0, 255)));
    assert_eq!(parse_color("#1a2B3c80"), Ok(rgba(0x1a, 0x2b, 0x3c, 0x80)));
}

#[test]
fn malformed_colours() {
    assert_eq!(parse_color(""), Err(ParseError::InvalidNumber));
    assert_eq!(parse_color("#FFF"), Err(ParseError::InvalidNumber));
    assert_eq!(parse_color("#FFFFFFF"), Err(ParseError::InvalidNumber));
    assert_eq!(parse_color("#GG0000"), Err(ParseError::InvalidNumber));
    assert_eq!(parse_color("#000000zz"), Err(ParseError::InvalidNumber));
}

#[test]
fn content_follows_the_colours() {
    let white = rgba(255, 255, 255, 255);
    let black = rgba(0, 0, 0, 255);
    let red = rgba(255, 0, 0, 255);
    assert_eq!(surface_content(Content::Alpha, false, white, black), Content::Alpha);
    assert_eq!(surface_content(Content::Alpha, true, white, black), Content::Color);
    assert_eq!(surface_content(Content::Alpha, false, white, red), Content::Color);
    assert_eq!(surface_content(Content::Color, false, white, black), Content::Color);
    assert_eq!(
        surface_content(Content::Alpha, false, rgba(255, 255, 255, 0), black),
        Content::ColorAlpha
    );
}

#[test]
fn flags_of_a_buffer() {
    assert_eq!(buffer_flags(false, false, false, false), 0);
    assert_eq!(buffer_flags(true, false, false, false), 1);
    assert_eq!(buffer_flags(true, true, false, true), 11);
    assert_eq!(buffer_flags(false, false, true, false), 4);
}
