//! Projection of shaped glyph runs onto positioned glyphs and cluster tables,
//! resolution of colour glyphs, and the option values of the viewer.

pub mod cluster;
pub mod cluster_lemmas;
pub mod color;
pub mod options;
pub mod surface;

pub use cluster::{
    ClusterSpan, HelperCairoLine, ProjectionError, RenderGlyph, ShapedGlyph, NO_GLYPH,
    hb_direction_is_backward, hb_direction_is_vertical,
};
pub use color::{
    BitmapGlyph, ColorFont, ColorGlyph, ColorLayer, GlyphExtents, ResolveError, Rgba,
    FOREGROUND_INDEX,
};
pub use options::{
    ClusterLevel, Direction, FeatureOptions, FontPpem, OutputAndFormatOptions, OutputFormat,
    ParseError, TextOptions, TextOpts, parse_font_ppem,
};
