//! Decides how one glyph of a colour font is painted: from an embedded
//! bitmap, as a stack of coloured layers, or as a plain outline.

use vstd::prelude::*;

verus! {

/// Palette index that stands for the caller's current paint colour.
pub const FOREGROUND_INDEX: u32 = 0xFFFF;

/// A colour with 8-bit channels.
#[derive(Clone, Copy, Debug, PartialEq, Eq, Structural)]
pub struct Rgba {
    pub red: u8,
    pub green: u8,
    pub blue: u8,
    pub alpha: u8,
}

/// The channels of a palette entry packed as blue, green, red, alpha from
/// the most significant byte down.
pub open spec fn rgba_of(c: u32) -> Rgba {
    Rgba {
        red: ((c >> 8u32) & 0xFFu32) as u8,
        green: ((c >> 16u32) & 0xFFu32) as u8,
        blue: ((c >> 24u32) & 0xFFu32) as u8,
        alpha: (c & 0xFFu32) as u8,
    }
}

/// Unpacks a palette entry.
pub fn rgba_from_packed(c: u32) -> (r: Rgba)
    ensures
        r == rgba_of(c),
{
    Rgba {
        red: ((c >> 8u32) & 0xFFu32) as u8,
        green: ((c >> 16u32) & 0xFFu32) as u8,
        blue: ((c >> 24u32) & 0xFFu32) as u8,
        alpha: (c & 0xFFu32) as u8,
    }
}

/// One layer of a layered colour glyph: the glyph to paint and the palette
/// index of its colour.
#[derive(Clone, Copy, Debug, PartialEq, Eq, Structural)]
pub struct ColorLayer {
    pub glyph: u32,
    pub color_index: u32,
}

/// Bearing and size of a glyph, in design units.
#[derive(Clone, Copy, Debug, PartialEq, Eq, Structural)]
pub struct GlyphExtents {
    pub x_bearing: i32,
    pub y_bearing: i32,
    pub width: i32,
    pub height: i32,
}

/// An embedded bitmap (PNG data) and the glyph's extents, if the font has
/// them.
pub struct BitmapGlyph {
    pub png: Vec<u8>,
    pub extents: Option<GlyphExtents>,
}

/// The colour data of a font, indexed by glyph id: embedded bitmaps, layer
/// lists, and the colours of the first palette packed as `rgba_of` reads them.
/// Glyph ids past the end of a table have no entry there.
pub struct ColorFont {
    pub bitmaps: Vec<Option<BitmapGlyph>>,
    pub layers: Vec<Vec<ColorLayer>>,
    pub palette: Vec<u32>,
}

/// How a colour glyph is painted.
pub enum ColorGlyph {
    /// Paint the bitmap scaled onto the glyph's extents.
    Bitmap { png: Vec<u8>, x_bearing: i32, y_bearing: i32, width: i32, height: i32 },
    /// Paint each glyph in order, later ones over earlier ones; `None` paints
    /// with the caller's current colour.
    Layered { layers: Vec<(u32, Option<Rgba>)> },
}

/// Why a colour glyph cannot be painted.
#[derive(Clone, Copy, Debug, PartialEq, Eq, Structural)]
pub enum ResolveError {
    /// The font has a bitmap for the glyph but no extents to place it.
    MissingExtents,
}

impl ColorFont {
    pub open spec fn bitmap_of(&self, glyph: u32) -> Option<BitmapGlyph> {
        if glyph < self.bitmaps@.len() {
            self.bitmaps@[glyph as int]
        } else {
            None
        }
    }

    /// Some glyph has a bitmap or a non-empty layer list.
    pub open spec fn has_color_data(&self) -> bool {
        ||| exists|i: int| 0 <= i < self.bitmaps@.len() && #[trigger] self.bitmaps@[i] is Some
        ||| exists|i: int| 0 <= i < self.layers@.len() && (#[trigger] self.layers@[i])@.len() > 0
    }

    pub open spec fn layers_of(&self, glyph: u32) -> Seq<ColorLayer> {
        if glyph < self.layers@.len() {
            self.layers@[glyph as int]@
        } else {
            seq![]
        }
    }
}

/// The layers that are painted, each with its colour: the foreground index
/// keeps the current colour, an index inside the palette takes that entry,
/// and a layer whose index lies past the palette is left out.
pub open spec fn painted_layers(layers: Seq<ColorLayer>, palette: Seq<u32>) -> Seq<
    (u32, Option<Rgba>),
>
    decreases layers.len(),
{
    if layers.len() == 0 {
        seq![]
    } else {
        let prev = painted_layers(layers.drop_last(), palette);
        let l = layers.last();
        if l.color_index == FOREGROUND_INDEX {
            prev.push((l.glyph, None))
        } else if l.color_index < palette.len() {
            prev.push((l.glyph, Some(rgba_of(palette[l.color_index as int]))))
        } else {
            prev
        }
    }
}

impl ColorFont {
    /// The bitmap stage: `None` when the font has no bitmap for the glyph,
    /// else the bitmap placed on the glyph's extents, or an error when the
    /// extents are missing.
    pub fn resolve_bitmap(&self, glyph: u32) -> (r: Option<Result<ColorGlyph, ResolveError>>)
        ensures
            match self.bitmap_of(glyph) {
                None => r is None,
                Some(b) => match b.extents {
                    None => r == Some(Err::<ColorGlyph, ResolveError>(ResolveError::MissingExtents)),
                    Some(e) => match r {
                        Some(Ok(ColorGlyph::Bitmap { png, x_bearing, y_bearing, width, height })) => {
                            &&& png@ == b.png@
                            &&& x_bearing == e.x_bearing
                            &&& y_bearing == e.y_bearing
                            &&& width == e.width
                            &&& height == e.height
                        },
                        _ => false,
                    },
                },
            },
    {
        if glyph as usize >= self.bitmaps.len() {
            return None;
        }
        match &self.bitmaps[glyph as usize] {
            None => None,
            Some(b) => match b.extents {
                None => Some(Err(ResolveError::MissingExtents)),
                Some(e) => {
                    let png = b.png.clone();
                    assert(png@ =~= b.png@);
                    Some(
                        Ok(
                            ColorGlyph::Bitmap {
                                png,
                                x_bearing: e.x_bearing,
                                y_bearing: e.y_bearing,
                                width: e.width,
                                height: e.height,
                            },
                        ),
                    )
                },
            },
        }
    }

    /// The layer stage: `None` when the font lists no layers for the glyph,
    /// else the layers in painting order with their resolved colours.
    pub fn resolve_layers(&self, glyph: u32) -> (r: Option<ColorGlyph>)
        ensures
            self.layers_of(glyph).len() == 0 ==> r is None,
            self.layers_of(glyph).len() > 0 ==> match r {
                Some(ColorGlyph::Layered { layers }) => layers@ == painted_layers(
                    self.layers_of(glyph),
                    self.palette@,
                ),
                _ => false,
            },
    {
        if glyph as usize >= self.layers.len() {
            return None;
        }
        let src = &self.layers[glyph as usize];
        if src.len() == 0 {
            return None;
        }
        let ghost ls = src@;
        let mut out: Vec<(u32, Option<Rgba>)> = Vec::new();
        let mut i: usize = 0;
        while i < src.len()
            invariant
                ls == src@,
                ls == self.layers_of(glyph),
                i <= ls.len(),
                out@ == painted_layers(ls.take(i as int), self.palette@),
            decreases ls.len() - i,
        {
            let l = src[i];
            proof {
                assert(ls.take(i + 1).drop_last() =~= ls.take(i as int));
                assert(ls.take(i + 1).last() == l);
            }
            if l.color_index == FOREGROUND_INDEX {
                out.push((l.glyph, None));
            } else if (l.color_index as usize) < self.palette.len() {
                let c = rgba_from_packed(self.palette[l.color_index as usize]);
                out.push((l.glyph, Some(c)));
            }
            i = i + 1;
        }
        assert(ls.take(i as int) =~= ls);
        Some(ColorGlyph::Layered { layers: out })
    }

    /// Whether any glyph of the font is painted in colour.
    pub fn has_color(&self) -> (r: bool)
        ensures
            r == self.has_color_data(),
    {
        let mut i: usize = 0;
        while i < self.bitmaps.len()
            invariant
                i <= self.bitmaps.len(),
                forall|k: int| 0 <= k < i ==> !(#[trigger] self.bitmaps@[k] is Some),
            decreases self.bitmaps.len() - i,
        {
            if self.bitmaps[i].is_some() {
                return true;
            }
            i = i + 1;
        }
        let mut j: usize = 0;
        while j < self.layers.len()
            invariant
                j <= self.layers.len(),
                forall|k: int| 0 <= k < self.bitmaps@.len() ==> !(#[trigger] self.bitmaps@[k] is Some),
                forall|k: int| 0 <= k < j ==> (#[trigger] self.layers@[k])@.len() == 0,
            decreases self.layers.len() - j,
        {
            if self.layers[j].len() > 0 {
                return true;
            }
            j = j + 1;
        }
        false
    }

    /// Resolves how `glyph` is painted: from its bitmap if the font has one,
    /// else from its layers if it has any, else `None`, which leaves the
    /// glyph to be painted as a plain outline in the current colour.
    pub fn resolve(&self, glyph: u32) -> (r: Result<Option<ColorGlyph>, ResolveError>)
        ensures
            match self.bitmap_of(glyph) {
                Some(b) => match b.extents {
                    None => r == Err::<Option<ColorGlyph>, ResolveError>(
                        ResolveError::MissingExtents,
                    ),
                    Some(e) => match r {
                        Ok(Some(ColorGlyph::Bitmap { png, x_bearing, y_bearing, width, height })) => {
                            &&& png@ == b.png@
                            &&& x_bearing == e.x_bearing
                            &&& y_bearing == e.y_bearing
                            &&& width == e.width
                            &&& height == e.height
                        },
                        _ => false,
                    },
                },
                None => if self.layers_of(glyph).len() == 0 {
                    r matches Ok(None)
                } else {
                    match r {
                        Ok(Some(ColorGlyph::Layered { layers })) => layers@ == painted_layers(
                            self.layers_of(glyph),
                            self.palette@,
                        ),
                        _ => false,
                    }
                },
            },
    {
        match self.resolve_bitmap(glyph) {
            Some(Ok(g)) => return Ok(Some(g)),
            Some(Err(e)) => return Err(e),
            None => {},
        }
        match self.resolve_layers(glyph) {
            Some(g) => Ok(Some(g)),
            None => Ok(None),
        }
    }
}

} // verus!
