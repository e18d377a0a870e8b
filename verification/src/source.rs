//! A parsed BDF font as plain values, and the parser that produces it.

use vstd::prelude::*;

verus! {

/// A pair of integers in BDF's coordinate system (y grows upwards).
#[derive(Debug, Clone, Copy, PartialEq, Eq, PartialOrd, Ord, Hash)]
pub struct Coord {
    pub x: i32,
    pub y: i32,
}

/// A glyph's bounding box: its size and the offset of its lower left corner.
#[derive(Debug, Clone, Copy, PartialEq, Eq, PartialOrd, Ord, Hash)]
pub struct BoundingBox {
    pub size: Coord,
    pub offset: Coord,
}

/// A glyph as the BDF file gives it. The bitmap holds the rows from top to
/// bottom, each padded to whole bytes, most significant bit first.
#[derive(Debug, Clone, PartialEq, Eq)]
pub struct SourceGlyph {
    pub encoding: Option<char>,
    pub device_width: Coord,
    pub bounding_box: BoundingBox,
    pub bitmap: Vec<u8>,
}

/// A BDF font: its glyphs in file order and its `PIXEL_SIZE` property, when
/// that property is present and an integer.
#[derive(Debug, Clone, PartialEq, Eq)]
pub struct SourceFont {
    pub glyphs: Vec<SourceGlyph>,
    pub pixel_size: Option<i32>,
}

/// The value of a `SourceGlyph`.
pub struct GlyphModel {
    pub encoding: Option<char>,
    pub device_width: Coord,
    pub bounding_box: BoundingBox,
    pub bitmap: Seq<u8>,
}

/// The value of a `SourceFont`.
pub struct FontModel {
    pub glyphs: Seq<GlyphModel>,
    pub pixel_size: Option<i32>,
}

impl View for SourceGlyph {
    type V = GlyphModel;

    open spec fn view(&self) -> GlyphModel {
        GlyphModel {
            encoding: self.encoding,
            device_width: self.device_width,
            bounding_box: self.bounding_box,
            bitmap: self.bitmap@,
        }
    }
}

impl View for SourceFont {
    type V = FontModel;

    open spec fn view(&self) -> FontModel {
        FontModel { glyphs: self.glyphs@.map_values(|g: SourceGlyph| g@), pixel_size: self.pixel_size }
    }
}

/// The font that the BDF parser reads from `input`, or `None` where it
/// rejects the input.
pub uninterp spec fn bdf_parse(input: Seq<u8>) -> Option<FontModel>;

/// Reads a BDF file. Calls `bdf_parser::BdfFont::parse` on `input`; on
/// success, copies each glyph's encoding, device width, bounding box and
/// bitmap in file order, and reads the `PIXEL_SIZE` property as an integer
/// with `Properties::try_get` (absent or not an integer: `None`). What the
/// parser accepts and what it reads is left to the name `bdf_parse`.
#[verifier::external_body]
pub(crate) fn parse_bdf(input: &[u8]) -> (font: Option<SourceFont>)
    ensures
        bdf_parse(input@) == match font {
            Some(f) => Some(f@),
            None => None::<FontModel>,
        },
{
    let font = bdf_parser::BdfFont::parse(input).ok()?;
    let glyphs = font.glyphs.iter().map(|g| SourceGlyph {
        encoding: g.encoding,
        device_width: Coord { x: g.device_width.x, y: g.device_width.y },
        bounding_box: BoundingBox {
            size: Coord { x: g.bounding_box.size.x, y: g.bounding_box.size.y },
            offset: Coord { x: g.bounding_box.offset.x, y: g.bounding_box.offset.y },
        },
        bitmap: g.bitmap.clone(),
    }).collect();
    let pixel_size = font.properties.try_get::<i32>(bdf_parser::Property::PixelSize).ok();
    Some(SourceFont { glyphs, pixel_size })
}

/// Bytes per bitmap row of a glyph `w` pixels wide.
pub open spec fn bytes_per_row(w: int) -> int {
    (w + 7) / 8
}

/// Index of the bitmap byte that holds pixel `(x, y)`.
pub open spec fn pixel_byte(w: int, x: int, y: int) -> int {
    x / 8 + bytes_per_row(w) * y
}

/// Pixel `(x, y)` of a glyph, counted from the top left of its bitmap.
pub open spec fn pixel_of(g: GlyphModel, x: int, y: int) -> bool {
    g.bitmap[pixel_byte(g.bounding_box.size.x as int, x, y)] & (0x80u8 >> ((x % 8) as u8)) != 0u8
}

impl SourceGlyph {
    /// Pixel `(x, y)` of the glyph, counted from the top left corner of the
    /// bitmap with y growing downwards.
    pub fn pixel(&self, x: usize, y: usize) -> (b: bool)
        requires
            self.bounding_box.size.x >= 0,
            pixel_byte(self.bounding_box.size.x as int, x as int, y as int) < self.bitmap@.len(),
        ensures
            b == pixel_of(self@, x as int, y as int),
    {
        let width: u64 = self.bounding_box.size.x as u64;
        let bpr: u64 = (width + 7) / 8;
        let len: usize = self.bitmap.len();
        proof {
            let pb = pixel_byte(width as int, x as int, y as int);
            assert(bytes_per_row(width as int) == bpr);
            assert(pb == x / 8 + bpr * y);
            assert(bpr * y <= pb) by (nonlinear_arith)
                requires pb == x / 8 + bpr * y, x >= 0;
        }
        assert(bpr < 0x2000_0000);
        let bpr_u: usize = bpr as usize;
        let row_start: usize = bpr_u * y;
        let index: usize = x / 8 + row_start;
        assert(index == pixel_byte(self.bounding_box.size.x as int, x as int, y as int));
        let mask: u8 = 0x80u8 >> ((x % 8) as u8);
        self.bitmap[index] & mask != 0
    }
}

} // verus!
