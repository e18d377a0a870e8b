//! Conversion of a parsed BDF font into a converted font: glyph selection,
//! glyph records, bitmap flattening and bit packing.

use vstd::prelude::*;

use crate::font::{bit_at, BdfGlyph};
use crate::geometry::{Point, Rectangle, Size};
use crate::source::{bdf_parse, BoundingBox, Coord, bytes_per_row, parse_bdf, pixel_byte, pixel_of, FontModel, GlyphModel, SourceFont, SourceGlyph};
use crate::text::chars_of;

verus! {

/// Bit `j` of `b`, counting from the most significant bit.
pub open spec fn bit_of(b: u8, j: u8) -> bool {
    (b >> ((7 - j) as u8)) & 1u8 == 1u8
}

/// `bytes` holds the bits of `bits`, eight to a byte, most significant bit
/// first, with the unused low bits of the last byte clear.
pub open spec fn packs(bytes: Seq<u8>, bits: Seq<bool>) -> bool {
    &&& bytes.len() == (bits.len() + 7) / 8
    &&& forall|i: int| 0 <= i < 8 * bytes.len() ==> #[trigger] bit_at(bytes, i) == (i < bits.len() && bits[i])
}

/// Setting bit `j` of `b` leaves the other bits as they were.
proof fn lemma_set_bit(b: u8, j: u8, k: u8)
    requires
        j < 8,
        k < 8,
    ensures
        bit_of(b | (0x80u8 >> j), k) == (bit_of(b, k) || j == k),
{
    assert(((b | (0x80u8 >> j)) >> ((7 - k) as u8)) & 1u8 == 1u8 <==> (((b >> ((7 - k) as u8)) & 1u8 == 1u8) || j == k))
        by (bit_vector)
        requires j < 8u8, k < 8u8;
}

/// No bit of zero is set.
proof fn lemma_zero_bits(k: u8)
    requires
        k < 8,
    ensures
        !bit_of(0u8, k),
{
    assert((0u8 >> ((7 - k) as u8)) & 1u8 != 1u8) by (bit_vector)
        requires k < 8u8;
}

/// Two bytes with the same bits are equal.
pub proof fn lemma_bits_determine_byte(a: u8, b: u8)
    requires
        forall|k: u8| k < 8 ==> bit_of(a, k) == bit_of(b, k),
    ensures
        a == b,
{
    assert(bit_of(a, 0) == bit_of(b, 0));
    assert(bit_of(a, 1) == bit_of(b, 1));
    assert(bit_of(a, 2) == bit_of(b, 2));
    assert(bit_of(a, 3) == bit_of(b, 3));
    assert(bit_of(a, 4) == bit_of(b, 4));
    assert(bit_of(a, 5) == bit_of(b, 5));
    assert(bit_of(a, 6) == bit_of(b, 6));
    assert(bit_of(a, 7) == bit_of(b, 7));
    assert(a == b) by (bit_vector)
        requires
            ((a >> 7u8) & 1u8 == 1u8) == ((b >> 7u8) & 1u8 == 1u8),
            ((a >> 6u8) & 1u8 == 1u8) == ((b >> 6u8) & 1u8 == 1u8),
            ((a >> 5u8) & 1u8 == 1u8) == ((b >> 5u8) & 1u8 == 1u8),
            ((a >> 4u8) & 1u8 == 1u8) == ((b >> 4u8) & 1u8 == 1u8),
            ((a >> 3u8) & 1u8 == 1u8) == ((b >> 3u8) & 1u8 == 1u8),
            ((a >> 2u8) & 1u8 == 1u8) == ((b >> 2u8) & 1u8 == 1u8),
            ((a >> 1u8) & 1u8 == 1u8) == ((b >> 1u8) & 1u8 == 1u8),
            ((a >> 0u8) & 1u8 == 1u8) == ((b >> 0u8) & 1u8 == 1u8);
}

/// Packing is unique: two byte sequences that pack the same bits are equal.
pub proof fn lemma_packs_unique(x: Seq<u8>, y: Seq<u8>, bits: Seq<bool>)
    requires
        packs(x, bits),
        packs(y, bits),
    ensures
        x == y,
{
    assert forall|m: int| 0 <= m < x.len() implies x[m] == y[m] by {
        assert forall|k: u8| k < 8 implies bit_of(x[m], k) == bit_of(y[m], k) by {
            let i = 8 * m + k;
            assert(i / 8 == m && i % 8 == k);
            assert(bit_at(x, i) == bit_at(y, i));
        }
        lemma_bits_determine_byte(x[m], y[m]);
    }
    assert(x =~= y);
}

/// Bit `i` of `bits` as a number; zero past the end.
pub open spec fn bit_val(bits: Seq<bool>, i: int) -> u8 {
    if 0 <= i < bits.len() && bits[i] {
        1u8
    } else {
        0u8
    }
}

/// Byte `m` of the packed form of `bits`: bits `8m` to `8m + 7`, the first
/// in the most significant place.
pub open spec fn byte_of(bits: Seq<bool>, m: int) -> u8 {
    (bit_val(bits, 8 * m) << 7u8) | (bit_val(bits, 8 * m + 1) << 6u8) | (bit_val(bits, 8 * m + 2) << 5u8)
        | (bit_val(bits, 8 * m + 3) << 4u8) | (bit_val(bits, 8 * m + 4) << 3u8) | (bit_val(bits, 8 * m + 5) << 2u8)
        | (bit_val(bits, 8 * m + 6) << 1u8) | bit_val(bits, 8 * m + 7)
}

/// The packed form of `bits`: eight bits to a byte, most significant bit
/// first, the last byte padded with clear bits.
pub open spec fn pack(bits: Seq<bool>) -> Seq<u8> {
    Seq::new(((bits.len() + 7) / 8) as nat, |m: int| byte_of(bits, m))
}

proof fn lemma_compose_bits(a0: u8, a1: u8, a2: u8, a3: u8, a4: u8, a5: u8, a6: u8, a7: u8)
    requires
        a0 <= 1, a1 <= 1, a2 <= 1, a3 <= 1, a4 <= 1, a5 <= 1, a6 <= 1, a7 <= 1,
    ensures
        ({
            let b = (a0 << 7u8) | (a1 << 6u8) | (a2 << 5u8) | (a3 << 4u8) | (a4 << 3u8) | (a5 << 2u8) | (a6 << 1u8) | a7;
            &&& bit_of(b, 0) == (a0 == 1)
            &&& bit_of(b, 1) == (a1 == 1)
            &&& bit_of(b, 2) == (a2 == 1)
            &&& bit_of(b, 3) == (a3 == 1)
            &&& bit_of(b, 4) == (a4 == 1)
            &&& bit_of(b, 5) == (a5 == 1)
            &&& bit_of(b, 6) == (a6 == 1)
            &&& bit_of(b, 7) == (a7 == 1)
        }),
{
    let b = (a0 << 7u8) | (a1 << 6u8) | (a2 << 5u8) | (a3 << 4u8) | (a4 << 3u8) | (a5 << 2u8) | (a6 << 1u8) | a7;
    assert(
        ((b >> 7u8) & 1u8 == 1u8) == (a0 == 1) && ((b >> 6u8) & 1u8 == 1u8) == (a1 == 1)
        && ((b >> 5u8) & 1u8 == 1u8) == (a2 == 1) && ((b >> 4u8) & 1u8 == 1u8) == (a3 == 1)
        && ((b >> 3u8) & 1u8 == 1u8) == (a4 == 1) && ((b >> 2u8) & 1u8 == 1u8) == (a5 == 1)
        && ((b >> 1u8) & 1u8 == 1u8) == (a6 == 1) && ((b >> 0u8) & 1u8 == 1u8) == (a7 == 1)
    ) by (bit_vector)
        requires
            a0 <= 1, a1 <= 1, a2 <= 1, a3 <= 1, a4 <= 1, a5 <= 1, a6 <= 1, a7 <= 1,
            b == (a0 << 7u8) | (a1 << 6u8) | (a2 << 5u8) | (a3 << 4u8) | (a4 << 3u8) | (a5 << 2u8) | (a6 << 1u8) | a7;
}

/// The packed form of `bits` does pack them.
pub proof fn lemma_pack_packs(bits: Seq<bool>)
    ensures
        packs(pack(bits), bits),
{
    let p = pack(bits);
    assert forall|i: int| 0 <= i < 8 * p.len() implies #[trigger] bit_at(p, i) == (i < bits.len() && bits[i]) by {
        let m = i / 8;
        let k = i % 8;
        lemma_compose_bits(
            bit_val(bits, 8 * m), bit_val(bits, 8 * m + 1), bit_val(bits, 8 * m + 2), bit_val(bits, 8 * m + 3),
            bit_val(bits, 8 * m + 4), bit_val(bits, 8 * m + 5), bit_val(bits, 8 * m + 6), bit_val(bits, 8 * m + 7),
        );
        assert(p[m] == byte_of(bits, m));
        assert(bit_at(p, i) == bit_of(p[m], k as u8));
        assert(i == 8 * m + k);
    }
}

/// Packs `bits` into bytes, eight bits to a byte, most significant bit first;
/// the last byte is padded with clear bits.
pub fn bits_to_bytes(bits: &[bool]) -> (bytes: Vec<u8>)
    ensures
        packs(bytes@, bits@),
        bytes@ == pack(bits@),
{
    let n = bits.len();
    let mut bytes: Vec<u8> = Vec::new();
    let mut i: usize = 0;
    while i < n
        invariant
            n == bits@.len(),
            i <= n,
            i % 8 == 0 || i == n,
            bytes@.len() == (i + 7) / 8,
            forall|t: int| 0 <= t < 8 * bytes@.len() ==> #[trigger] bit_at(bytes@, t) == (t < i && bits@[t]),
        decreases n - i,
    {
        let mut byte: u8 = 0;
        let mut j: usize = 0;
        proof {
            assert forall|k: u8| k < 8 implies !bit_of(byte, k) by { lemma_zero_bits(k); }
        }
        while j < 8 && i + j < n
            invariant
                n == bits@.len(),
                i < n,
                i % 8 == 0,
                j <= 8,
                i + j <= n,
                forall|k: u8| k < 8 ==> #[trigger] bit_of(byte, k) == (k < j && bits@[i + k]),
            decreases 8 - j,
        {
            if bits[i + j] {
                proof {
                    assert forall|k: u8| k < 8 implies #[trigger] bit_of(byte | (0x80u8 >> (j as u8)), k) == (k < j + 1 && bits@[i + k]) by {
                        lemma_set_bit(byte, j as u8, k);
                    }
                }
                byte = byte | (0x80u8 >> (j as u8));
            }
            j = j + 1;
        }
        let ghost old_bytes = bytes@;
        bytes.push(byte);
        proof {
            let m = old_bytes.len() as int;
            assert(m * 8 == i);
            assert forall|t: int| 0 <= t < 8 * bytes@.len() implies #[trigger] bit_at(bytes@, t) == (t < i + j && bits@[t]) by {
                if t < 8 * m {
                    assert(t / 8 < m);
                    assert(bit_at(old_bytes, t) == bit_at(bytes@, t));
                } else {
                    let k = (t - 8 * m) as u8;
                    assert(t / 8 == m);
                    assert(t % 8 == k);
                    assert(bit_of(byte, k) == (k < j && bits@[i + k]));
                }
            }
        }
        i = i + j;
    }
    proof {
        lemma_pack_packs(bits@);
        lemma_packs_unique(bytes@, pack(bits@), bits@);
    }
    bytes
}

/// A glyph can be converted without an arithmetic fault: its top edge and
/// height fit the conversion's `i32` arithmetic, its height is not negative,
/// and a glyph with rows has a non-negative width and a bitmap that covers
/// every row.
pub open spec fn glyph_convertible(g: GlyphModel) -> bool {
    let w = g.bounding_box.size.x as int;
    let h = g.bounding_box.size.y as int;
    let oy = g.bounding_box.offset.y as int;
    &&& oy > i32::MIN
    &&& h >= 0
    &&& i32::MIN <= -oy - (h - 1) <= i32::MAX
    &&& h > 0 ==> w >= 0 && bytes_per_row(w) * h <= g.bitmap.len()
}

/// Whether a glyph converts depends on its height, its vertical offset, its
/// width and its bitmap alone: a glyph with a non-negative height, a top
/// edge `-offset.y - (height - 1)` that fits `i32` (with `offset.y` not
/// `i32::MIN`), and, when it has rows, a non-negative width and a bitmap
/// with at least `ceil(width / 8)` bytes per row, converts, whatever its
/// encoding, horizontal offset and device width.
pub proof fn lemma_glyph_convertible_when(g: GlyphModel)
    requires
        g.bounding_box.size.y >= 0,
        g.bounding_box.offset.y > i32::MIN,
        i32::MIN <= -g.bounding_box.offset.y - (g.bounding_box.size.y - 1) <= i32::MAX,
        g.bounding_box.size.y > 0 ==> g.bounding_box.size.x >= 0
            && (g.bounding_box.size.x + 7) / 8 * g.bounding_box.size.y <= g.bitmap.len(),
    ensures
        glyph_convertible(g),
{
}

/// Changing a glyph's encoding, horizontal offset or device width does not
/// change whether it converts.
pub proof fn lemma_glyph_convertible_ignores(g: GlyphModel, encoding: Option<char>, offset_x: i32, device_width: Coord)
    ensures
        glyph_convertible(g) == glyph_convertible(GlyphModel {
            encoding,
            device_width,
            bounding_box: BoundingBox {
                size: g.bounding_box.size,
                offset: Coord { x: offset_x, y: g.bounding_box.offset.y },
            },
            bitmap: g.bitmap,
        }),
{
}

/// The pixels of a glyph's bounding box, row by row from the top, each row
/// from left to right.
pub open spec fn pixels_of(g: GlyphModel) -> Seq<bool> {
    let w = g.bounding_box.size.x as int;
    let h = g.bounding_box.size.y as int;
    if w > 0 && h > 0 {
        Seq::new((w * h) as nat, |k: int| pixel_of(g, k % w, k / w))
    } else {
        Seq::empty()
    }
}

/// The converted record of glyph `g` whose pixels start at bit `start`:
/// the box's top left corner turned into y-down coordinates, its size, and
/// the horizontal device width, the signed values taken as unsigned.
pub open spec fn literal_of(g: GlyphModel, start: int) -> BdfGlyph {
    let bb = g.bounding_box;
    BdfGlyph {
        character: g.encoding->0,
        bounding_box: Rectangle {
            top_left: Point { x: bb.offset.x, y: (-bb.offset.y - (bb.size.y - 1)) as i32 },
            size: Size { width: bb.size.x as u32, height: bb.size.y as u32 },
        },
        device_width: g.device_width.x as u32,
        start_index: start as usize,
    }
}

/// Converts one glyph whose pixels will start at bit `start_index` of the
/// font data: its pixels in row-major order and its converted record.
pub fn glyph_literal(glyph: &SourceGlyph, start_index: usize) -> (r: (Vec<bool>, BdfGlyph))
    requires
        glyph.encoding is Some,
        glyph_convertible(glyph@),
    ensures
        r.0@ == pixels_of(glyph@),
        r.1 == literal_of(glyph@, start_index as int),
{
    let character = glyph.encoding.unwrap();
    let bb = glyph.bounding_box;
    let top_left = Point::new(bb.offset.x, -bb.offset.y - (bb.size.y - 1));
    let bounding_box = Rectangle::new(top_left, Size::new(#[verifier::truncate] (bb.size.x as u32), #[verifier::truncate] (bb.size.y as u32)));
    let device_width = #[verifier::truncate] (glyph.device_width.x as u32);

    let ghost g = glyph@;
    let mut data: Vec<bool> = Vec::new();
    let h: usize = bb.size.y as usize;
    if h > 0 && bb.size.x > 0 {
        let w: usize = bb.size.x as usize;
        let ghost wi = w as int;
        let mut y: usize = 0;
        while y < h
            invariant
                w == bb.size.x,
                wi == w,
                bb == glyph.bounding_box,
                h == bb.size.y,
                w > 0,
                g == glyph@,
                glyph_convertible(g),
                y <= h,
                data@ =~= Seq::new((y * w) as nat, |k: int| pixel_of(g, k % wi, k / wi)),
            decreases h - y,
        {
            let mut x: usize = 0;
            while x < w
                invariant
                    w == bb.size.x,
                    wi == w,
                    bb == glyph.bounding_box,
                    h == bb.size.y,
                    w > 0,
                    g == glyph@,
                    glyph_convertible(g),
                    y < h,
                    x <= w,
                    data@ =~= Seq::new((y * w + x) as nat, |k: int| pixel_of(g, k % wi, k / wi)),
                decreases w - x,
            {
                proof {
                    let bpr = bytes_per_row(wi);
                    assert(x / 8 <= (wi + 7) / 8 - 1) by (nonlinear_arith)
                        requires x < wi, x >= 0;
                    assert(bpr * y <= bpr * (h - 1)) by (nonlinear_arith)
                        requires bpr >= 0, y <= h - 1;
                    assert(bpr * (h - 1) == bpr * h - bpr) by (nonlinear_arith);
                    assert(pixel_byte(wi, x as int, y as int) < g.bitmap.len());
                    vstd::arithmetic::div_mod::lemma_fundamental_div_mod_converse(
                        (y * w + x) as int, wi, y as int, x as int);
                }
                let p = glyph.pixel(x, y);
                data.push(p);
                x = x + 1;
            }
            assert(y * w + w == (y + 1) * w) by (nonlinear_arith);
            y = y + 1;
        }
        assert(h * w == w * h) by (nonlinear_arith);
        assert(data@ =~= pixels_of(g));
    } else {
        assert(data@ =~= pixels_of(g));
    }
    (data, BdfGlyph { character, bounding_box, device_width, start_index })
}

/// The characters of `s` without repeats, each at its first occurrence.
pub open spec fn distinct(s: Seq<char>) -> Seq<char>
    decreases s.len(),
{
    if s.len() == 0 {
        Seq::empty()
    } else {
        let d = distinct(s.drop_last());
        if d.contains(s.last()) {
            d
        } else {
            d.push(s.last())
        }
    }
}

/// The characters that the caller asks to export: those of `characters`
/// without repeats; none when no characters are given.
pub open spec fn requested(characters: Option<Seq<char>>) -> Seq<char> {
    match characters {
        Some(s) => distinct(s),
        None => Seq::empty(),
    }
}

/// Some glyph of `glyphs` encodes `c`.
pub open spec fn has_encoding(glyphs: Seq<GlyphModel>, c: char) -> bool {
    exists|i: int| 0 <= i < glyphs.len() && #[trigger] glyphs[i].encoding == Some(c)
}

/// The characters of `req` for which `glyphs` has a glyph (`found`), or has
/// none (`!found`), in the order of `req`.
pub open spec fn chars_where(req: Seq<char>, glyphs: Seq<GlyphModel>, found: bool) -> Seq<char>
    decreases req.len(),
{
    if req.len() == 0 {
        Seq::empty()
    } else {
        let r = chars_where(req.drop_last(), glyphs, found);
        if has_encoding(glyphs, req.last()) == found {
            r.push(req.last())
        } else {
            r
        }
    }
}

/// A glyph is exported: it has an encoding and either nothing was requested
/// or its character was.
pub open spec fn selected(g: GlyphModel, req: Seq<char>) -> bool {
    g.encoding is Some && (req.len() == 0 || req.contains(g.encoding->0))
}

/// The state of a conversion: the converted records so far, the pixel bits
/// so far and the replacement glyph chosen so far.
pub struct ExportState {
    pub glyphs: Seq<BdfGlyph>,
    pub bits: Seq<bool>,
    pub replacement: Option<int>,
}

/// Converts `glyphs` in order. An exported glyph's pixels are appended to
/// the bits and its record starts where they start. The replacement glyph is
/// the last exported U+FFFD glyph, else the first exported space.
pub open spec fn export(glyphs: Seq<GlyphModel>, req: Seq<char>) -> ExportState
    decreases glyphs.len(),
{
    if glyphs.len() == 0 {
        ExportState { glyphs: Seq::empty(), bits: Seq::empty(), replacement: None }
    } else {
        let st = export(glyphs.drop_last(), req);
        let g = glyphs.last();
        if selected(g, req) {
            let c = g.encoding->0;
            ExportState {
                glyphs: st.glyphs.push(literal_of(g, st.bits.len() as int)),
                bits: st.bits + pixels_of(g),
                replacement: if c == '\u{FFFD}' || (c == ' ' && st.replacement is None) {
                    Some(st.glyphs.len() as int)
                } else {
                    st.replacement
                },
            }
        } else {
            st
        }
    }
}

/// The index of the replacement glyph: the one the conversion chose, else
/// the first glyph.
pub open spec fn replacement_index(st: ExportState) -> usize {
    match st.replacement {
        Some(i) => i as usize,
        None => 0usize,
    }
}

/// A font can be converted: every exported glyph converts without fault and
/// the font states an integer pixel size.
pub open spec fn font_convertible(font: FontModel, req: Seq<char>) -> bool {
    &&& font.pixel_size is Some
    &&& glyphs_convertible(font, req)
}

/// The result of converting a font.
pub struct Converted {
    pub glyphs: Vec<BdfGlyph>,
    pub data: Vec<u8>,
    pub line_height: u32,
    pub replacement_character: usize,
    /// The requested characters that the font has.
    pub scope: Vec<char>,
    /// The requested characters that the font lacks.
    pub left: Vec<char>,
}

/// `c` occurs in `v`.
pub fn contains_char(v: &Vec<char>, c: char) -> (b: bool)
    ensures
        b == v@.contains(c),
{
    let mut i: usize = 0;
    while i < v.len()
        invariant
            i <= v@.len(),
            forall|j: int| 0 <= j < i ==> v@[j] != c,
        decreases v@.len() - i,
    {
        if v[i] == c {
            assert(v@[i as int] == c);
            return true;
        }
        i = i + 1;
    }
    false
}

/// The characters of `s` without repeats, each at its first occurrence.
pub fn distinct_chars(s: &Vec<char>) -> (d: Vec<char>)
    ensures
        d@ == distinct(s@),
{
    let mut d: Vec<char> = Vec::new();
    let mut i: usize = 0;
    while i < s.len()
        invariant
            i <= s@.len(),
            d@ == distinct(s@.take(i as int)),
        decreases s@.len() - i,
    {
        let c = s[i];
        assert(s@.take(i as int + 1).drop_last() == s@.take(i as int));
        if !contains_char(&d, c) {
            d.push(c);
        }
        i = i + 1;
    }
    assert(s@.take(s@.len() as int) == s@);
    d
}

/// Some glyph of `glyphs` encodes `c`.
pub fn font_has_encoding(glyphs: &Vec<SourceGlyph>, c: char) -> (b: bool)
    ensures
        b == has_encoding(glyphs@.map_values(|g: SourceGlyph| g@), c),
{
    let ghost m = glyphs@.map_values(|g: SourceGlyph| g@);
    let mut i: usize = 0;
    while i < glyphs.len()
        invariant
            i <= glyphs@.len(),
            m == glyphs@.map_values(|g: SourceGlyph| g@),
            forall|j: int| 0 <= j < i ==> m[j].encoding != Some(c),
        decreases glyphs@.len() - i,
    {
        if glyphs[i].encoding == Some(c) {
            assert(m[i as int].encoding == Some(c));
            return true;
        }
        i = i + 1;
    }
    false
}

/// The characters of `req` that `glyphs` has (`found`) or lacks (`!found`).
pub fn select_chars(req: &Vec<char>, glyphs: &Vec<SourceGlyph>, found: bool) -> (r: Vec<char>)
    ensures
        r@ == chars_where(req@, glyphs@.map_values(|g: SourceGlyph| g@), found),
{
    let ghost m = glyphs@.map_values(|g: SourceGlyph| g@);
    let mut r: Vec<char> = Vec::new();
    let mut i: usize = 0;
    while i < req.len()
        invariant
            i <= req@.len(),
            m == glyphs@.map_values(|g: SourceGlyph| g@),
            r@ == chars_where(req@.take(i as int), m, found),
        decreases req@.len() - i,
    {
        let c = req[i];
        assert(req@.take(i as int + 1).drop_last() == req@.take(i as int));
        if font_has_encoding(glyphs, c) == found {
            r.push(c);
        }
        i = i + 1;
    }
    assert(req@.take(req@.len() as int) == req@);
    r
}

/// The requested characters: those of `characters` without repeats.
pub fn requested_chars(characters: &Option<String>) -> (r: Vec<char>)
    ensures
        r@ == requested(match characters {
            Some(s) => Some(s@),
            None => None,
        }),
{
    match characters {
        Some(s) => {
            let cs = chars_of(s.as_str());
            distinct_chars(&cs)
        },
        None => Vec::new(),
    }
}

/// Converts a parsed font. Glyphs without an encoding are skipped; when
/// characters are requested, only glyphs for requested characters are
/// exported. The exported glyphs' pixels are packed into the data, the line
/// height is the pixel size taken as unsigned, and the replacement glyph is
/// the last exported U+FFFD glyph, else the first exported space, else the
/// first glyph. `scope` and `left` list the requested characters that the
/// font has and lacks.
pub fn convert_font(font: &SourceFont, characters: &Option<String>) -> (r: Converted)
    requires
        font_convertible(font@, requested(match characters {
            Some(s) => Some(s@),
            None => None,
        })),
    ensures
        ({
            let req = requested(match characters {
                Some(s) => Some(s@),
                None => None,
            });
            let st = export(font@.glyphs, req);
            &&& r.glyphs@ == st.glyphs
            &&& packs(r.data@, st.bits)
            &&& r.line_height == font@.pixel_size->0 as u32
            &&& r.replacement_character == match st.replacement {
                Some(i) => i as usize,
                None => 0usize,
            }
            &&& r.scope@ == chars_where(req, font@.glyphs, true)
            &&& r.left@ == chars_where(req, font@.glyphs, false)
        }),
{
    let req = requested_chars(characters);
    let ghost m = font@.glyphs;
    let mut bits: Vec<bool> = Vec::new();
    let mut glyphs: Vec<BdfGlyph> = Vec::new();
    let mut replacement: Option<usize> = None;
    let n = font.glyphs.len();
    let mut i: usize = 0;
    while i < n
        invariant
            n == font.glyphs@.len(),
            m == font@.glyphs,
            m.len() == n,
            i <= n,
            font_convertible(font@, req@),
            ({
                let st = export(m.take(i as int), req@);
                &&& glyphs@ == st.glyphs
                &&& bits@ == st.bits
                &&& st.replacement == match replacement {
                    Some(j) => Some(j as int),
                    None => None::<int>,
                }
            }),
        decreases n - i,
    {
        let g = &font.glyphs[i];
        assert(m[i as int] == g@);
        assert(m.take(i as int + 1).drop_last() == m.take(i as int));
        assert(m.take(i as int + 1).last() == g@);
        if let Some(c) = g.encoding {
            let wanted = req.len() == 0 || contains_char(&req, c);
            if wanted {
                assert(selected(m[i as int], req@));
                if c == '\u{FFFD}' || (c == ' ' && replacement.is_none()) {
                    replacement = Some(glyphs.len());
                }
                let (mut glyph_bits, literal) = glyph_literal(g, bits.len());
                glyphs.push(literal);
                bits.append(&mut glyph_bits);
            }
        }
        i = i + 1;
    }
    assert(m.take(n as int) == m);
    let replacement_character = match replacement {
        Some(j) => j,
        None => 0,
    };
    let data = bits_to_bytes(bits.as_slice());
    let line_height = match font.pixel_size {
        Some(p) => #[verifier::truncate] (p as u32),
        None => 0,
    };
    let scope = select_chars(&req, &font.glyphs, true);
    let left = select_chars(&req, &font.glyphs, false);
    Converted { glyphs, data, line_height, replacement_character, scope, left }
}

/// Why a BDF file could not be converted.
#[derive(Debug, Clone, Copy, PartialEq, Eq)]
pub enum ConvError {
    /// The parser rejected the file.
    BadFormat,
    /// An exported glyph's box or bitmap does not fit the conversion.
    InvalidGlyph,
    /// The font has no integer `PIXEL_SIZE` property.
    MissingPixelSize,
}

/// Every exported glyph of `font` converts without fault.
pub open spec fn glyphs_convertible(font: FontModel, req: Seq<char>) -> bool {
    forall|i: int| 0 <= i < font.glyphs.len() && selected(#[trigger] font.glyphs[i], req) ==> glyph_convertible(font.glyphs[i])
}

/// The parsed font that conversion of `input` works on, or why there is none:
/// the parse fails, an exported glyph does not convert, or the pixel size is
/// missing, checked in that order.
pub open spec fn checked_font(input: Seq<u8>, req: Seq<char>) -> Result<FontModel, ConvError> {
    match bdf_parse(input) {
        None => Err(ConvError::BadFormat),
        Some(f) => if !glyphs_convertible(f, req) {
            Err(ConvError::InvalidGlyph)
        } else if f.pixel_size is None {
            Err(ConvError::MissingPixelSize)
        } else {
            Ok(f)
        },
    }
}

/// What converting `font` for `req` gives, as `convert_font` states it.
pub open spec fn converted_from(c: Converted, font: FontModel, req: Seq<char>) -> bool {
    let st = export(font.glyphs, req);
    &&& c.glyphs@ == st.glyphs
    &&& c.data@ == pack(st.bits)
    &&& c.line_height == font.pixel_size->0 as u32
    &&& c.replacement_character == replacement_index(st)
    &&& c.scope@ == chars_where(req, font.glyphs, true)
    &&& c.left@ == chars_where(req, font.glyphs, false)
}

/// The characters requested by an optional string.
pub open spec fn requested_of(characters: Option<String>) -> Seq<char> {
    requested(match characters {
        Some(s) => Some(s@),
        None => None,
    })
}

/// Whether glyph `g` converts without fault.
pub fn glyph_is_convertible(g: &SourceGlyph) -> (b: bool)
    ensures
        b == glyph_convertible(g@),
{
    let w: i64 = g.bounding_box.size.x as i64;
    let h: i64 = g.bounding_box.size.y as i64;
    let oy: i64 = g.bounding_box.offset.y as i64;
    if oy == -2147483648i64 || h < 0 {
        return false;
    }
    let top: i64 = -oy - (h - 1);
    if top < -2147483648i64 || top > 2147483647i64 {
        return false;
    }
    if h > 0 {
        if w < 0 {
            return false;
        }
        let bpr: u64 = ((w + 7) / 8) as u64;
        assert(bpr * (h as u64) <= 0x1000_0000 * 0x8000_0000) by (nonlinear_arith)
            requires bpr <= 0x1000_0000, h <= 0x8000_0000, h >= 0;
        let need: u64 = bpr * (h as u64);
        need <= g.bitmap.len() as u64
    } else {
        true
    }
}

/// Whether every exported glyph of `font` converts without fault.
pub fn font_glyphs_convertible(font: &SourceFont, req: &Vec<char>) -> (b: bool)
    ensures
        b == glyphs_convertible(font@, req@),
{
    let ghost m = font@.glyphs;
    let mut i: usize = 0;
    while i < font.glyphs.len()
        invariant
            i <= font.glyphs@.len(),
            m == font@.glyphs,
            forall|j: int| 0 <= j < i && selected(#[trigger] m[j], req@) ==> glyph_convertible(m[j]),
        decreases font.glyphs@.len() - i,
    {
        let g = &font.glyphs[i];
        assert(m[i as int] == g@);
        if let Some(c) = g.encoding {
            if req.len() == 0 || contains_char(req, c) {
                if !glyph_is_convertible(g) {
                    assert(selected(m[i as int], req@));
                    return false;
                }
            }
        }
        i = i + 1;
    }
    true
}

/// Parses a BDF file and converts it for the requested characters, or says
/// why it cannot: the file does not parse, an exported glyph does not
/// convert, or the font has no integer pixel size.
pub fn parse_and_convert(bdf: &[u8], characters: &Option<String>) -> (r: Result<Converted, ConvError>)
    ensures
        match checked_font(bdf@, requested_of(*characters)) {
            Err(e) => r == Err::<Converted, ConvError>(e),
            Ok(f) => r matches Ok(c) && converted_from(c, f, requested_of(*characters)),
        },
{
    let font = match parse_bdf(bdf) {
        Some(f) => f,
        None => return Err(ConvError::BadFormat),
    };
    let req = requested_chars(characters);
    if !font_glyphs_convertible(&font, &req) {
        return Err(ConvError::InvalidGlyph);
    }
    if font.pixel_size.is_none() {
        return Err(ConvError::MissingPixelSize);
    }
    let c = convert_font(&font, characters);
    proof {
        lemma_pack_packs(export(font@.glyphs, req@).bits);
        lemma_packs_unique(c.data@, pack(export(font@.glyphs, req@).bits), export(font@.glyphs, req@).bits);
    }
    Ok(c)
}

} // verus!
