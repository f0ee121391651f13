use hb_util::color::rgba_from_packed;
use hb_util::{
    BitmapGlyph, ColorFont, ColorGlyph, ColorLayer, GlyphExtents, ResolveError, Rgba,
    FOREGROUND_INDEX,
};

fn packed(r: u8, g: u8, b: u8, a: u8) -> u32 {
    ((b as u32) << 24) | ((g as u32) << 16) | ((r as u32) << 8) | a as u32
}

fn extents() -> GlyphExtents {
    GlyphExtents { x_bearing: 1, y_bearing: 2, width: 30, height: -40 }
}

fn font() -> ColorFont {
    ColorFont {
        bitmaps: vec![
            None,
            Some(BitmapGlyph { png: vec![137, 80, 78, 71], extents: Some(extents()) }),
            Some(BitmapGlyph { png: vec![1], extents: None }),
        ],
        layers: vec![
            vec![],
            vec![ColorLayer { glyph: 8, color_index: 0 }],
            vec![],
            vec![
                ColorLayer { glyph: 5, color_index: FOREGROUND_INDEX },
                ColorLayer { glyph: 9, color_index: 1 },
            ],
            vec![
                ColorLayer { glyph: 5, color_index: 7 },
                ColorLayer { glyph: 6, color_index: 0 },
            ],
        ],
        palette: vec![packed(1, 2, 3, 4), packed(10, 20, 30, 255)],
    }
}

#[test]
fn unpacks_palette_entries() {
    assert_eq!(
        rgba_from_packed(0x1E140AFF),
        Rgba { red: 10, green: 20, blue: 30, alpha: 255 }
    );
    assert_eq!(rgba_from_packed(packed(1, 2, 3, 4)), Rgba { red: 1, green: 2, blue: 3, alpha: 4 });
}

#[test]
fn bitmap_wins_over_layers() {
    match font().resolve(1) {
        Ok(Some(ColorGlyph::Bitmap { png, x_bearing, y_bearing, width, height })) => {
            assert_eq!(png, vec![137, 80, 78, 71]);
            assert_eq!((x_bearing, y_bearing, width, height), (1, 2, 30, -40));
        }
        _ => panic!("expected a bitmap"),
    }
}

#[test]
fn bitmap_without_extents_is_an_error() {
    assert!(matches!(font().resolve(2), Err(ResolveError::MissingExtents)));
    assert!(matches!(font().resolve_bitmap(2), Some(Err(ResolveError::MissingExtents))));
}

#[test]
fn layers_with_foreground_and_palette_colour() {
    match font().resolve(3) {
        Ok(Some(ColorGlyph::Layered { layers })) => {
            assert_eq!(
                layers,
                vec![(5, None), (9, Some(Rgba { red: 10, green: 20, blue: 30, alpha: 255 }))]
            );
        }
        _ => panic!("expected layers"),
    }
}

#[test]
fn layer_outside_the_palette_is_skipped() {
    match font().resolve(4) {
        Ok(Some(ColorGlyph::Layered { layers })) => {
            assert_eq!(layers, vec![(6, Some(Rgba { red: 1, green: 2, blue: 3, alpha: 4 }))]);
        }
        _ => panic!("expected layers"),
    }
}

#[test]
fn no_colour_data_falls_back_to_outline() {
    assert!(matches!(font().resolve(0), Ok(None)));
    assert!(matches!(font().resolve(99), Ok(None)));
    assert!(font().resolve_layers(0).is_none());
    assert!(font().resolve_bitmap(3).is_none());
}

#[test]
fn colour_data_presence() {
    assert!(font().has_color());
    let plain = ColorFont { bitmaps: vec![None], layers: vec![vec![]], palette: vec![] };
    assert!(!plain.has_color());
    let layered = ColorFont {
        bitmaps: vec![],
        layers: vec![vec![ColorLayer { glyph: 1, color_index: 0 }]],
        palette: vec![],
    };
    assert!(layered.has_color());
}
