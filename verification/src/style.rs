//! A text style that lays out strings with a converted font: which pixels a
//! string lights, where the pen ends and how wide a string measures.

use vstd::prelude::*;

use crate::font::{can_lookup, glyph_index, has_glyph, lit_points, BdfFont, BdfGlyph};
use crate::geometry::{can_add_point, can_add_size, spec_add_size, Point, Rectangle, Size, TextMetrics};

verus! {

/// The glyph that stands for `c` in `font`.
pub open spec fn glyph_of(font: BdfFont, c: char) -> BdfGlyph {
    font.glyphs@[glyph_index(font.glyphs@, font.replacement_character, c)]
}

/// Every character of `chars` has a glyph to draw.
pub open spec fn can_lookup_all(font: BdfFont, chars: Seq<char>) -> bool {
    forall|i: int| 0 <= i < chars.len() ==> can_lookup(font.glyphs@, font.replacement_character, #[trigger] chars[i])
}

/// The pen's x coordinate after drawing `chars` from `x`: each glyph moves it
/// by its device width taken as an `i32`.
pub open spec fn pen_x(font: BdfFont, chars: Seq<char>, x: int) -> int
    decreases chars.len(),
{
    if chars.len() == 0 {
        x
    } else {
        pen_x(font, chars.drop_last(), x) + (glyph_of(font, chars.last()).device_width as i32)
    }
}

/// Where the pen stands after the first `k` characters of `chars`, starting at `p`.
pub open spec fn pen_at(font: BdfFont, chars: Seq<char>, p: Point, k: int) -> Point {
    Point { x: pen_x(font, chars.take(k), p.x as int) as i32, y: p.y }
}

/// Drawing `chars` from `p` keeps every pen position and every glyph
/// placement in range, and finds a glyph for each character.
pub open spec fn can_draw_string(font: BdfFont, chars: Seq<char>, p: Point) -> bool {
    &&& can_lookup_all(font, chars)
    &&& forall|k: int| 0 <= k <= chars.len() ==> i32::MIN <= #[trigger] pen_x(font, chars.take(k), p.x as int) <= i32::MAX
    &&& forall|k: int| 0 <= k < chars.len() ==> can_add_point(glyph_of(font, #[trigger] chars[k]).bounding_box.top_left, pen_at(font, chars, p, k))
}

/// The sum of the device widths of the glyphs of `chars`.
pub open spec fn width_sum(font: BdfFont, chars: Seq<char>) -> int
    decreases chars.len(),
{
    if chars.len() == 0 {
        0
    } else {
        width_sum(font, chars.drop_last()) + glyph_of(font, chars.last()).device_width
    }
}

/// Measuring `chars` from `p` finds a glyph for each character, and the
/// width sum fits a non-negative `i32` that can be added to `p.x`.
pub open spec fn can_measure_string(font: BdfFont, chars: Seq<char>, p: Point) -> bool {
    &&& can_lookup_all(font, chars)
    &&& width_sum(font, chars) <= i32::MAX
    &&& p.x + width_sum(font, chars) <= i32::MAX
}

/// The next position after measuring `chars` from `p`.
pub open spec fn measured_next(font: BdfFont, chars: Seq<char>, p: Point) -> Point {
    Point { x: (p.x + width_sum(font, chars)) as i32, y: p.y }
}

/// A text style: a font and a text color.
#[derive(Debug, Clone, Copy, PartialEq, Eq, PartialOrd, Ord, Hash)]
pub struct BdfTextStyle<'a, C> {
    font: &'a BdfFont<'a>,
    color: C,
}

/// Whether a glyph can be found for `c` in `font`.
pub fn lookup_ok(font: &BdfFont, c: char) -> (b: bool)
    ensures
        b == can_lookup(font.glyphs@, font.replacement_character, c),
{
    if font.replacement_character < font.glyphs.len() {
        return true;
    }
    let mut i: usize = 0;
    while i < font.glyphs.len()
        invariant
            i <= font.glyphs@.len(),
            forall|j: int| 0 <= j < i ==> font.glyphs@[j].character != c,
        decreases font.glyphs@.len() - i,
    {
        if font.glyphs[i].character == c {
            assert(font.glyphs@[i as int].character == c);
            return true;
        }
        i = i + 1;
    }
    assert(!has_glyph(font.glyphs@, c));
    false
}

impl<'a, C> BdfTextStyle<'a, C> {
    pub closed spec fn spec_font(&self) -> BdfFont<'a> {
        *self.font
    }

    pub closed spec fn spec_color(&self) -> C {
        self.color
    }

    /// Creates a style that draws with `font` in `color`.
    pub fn new(font: &'a BdfFont<'a>, color: C) -> (s: Self)
        ensures
            s.spec_font() == *font,
            s.spec_color() == color,
    {
        Self { font, color }
    }

    /// The style's font.
    pub fn font(&self) -> (f: &'a BdfFont<'a>)
        ensures
            *f == self.spec_font(),
    {
        self.font
    }

    /// The style's text color.
    pub fn color(&self) -> (c: &C)
        ensures
            *c == self.spec_color(),
    {
        &self.color
    }

    /// Sets the text color; `None` leaves the color as it was.
    pub fn set_text_color(&mut self, text_color: Option<C>)
        ensures
            final(self).spec_font() == old(self).spec_font(),
            final(self).spec_color() == match text_color {
                Some(c) => c,
                None => old(self).spec_color(),
            },
    {
        if let Some(color) = text_color {
            self.color = color;
        }
    }

    /// Lays out `text` from `position`: for each character, the points that
    /// its glyph lights when drawn at the current pen position, and the pen
    /// position after the last character. The pen moves right by each
    /// glyph's device width.
    pub fn draw_string(&self, text: &str, position: Point) -> (r: (Vec<Vec<Point>>, Point))
        requires
            can_draw_string(self.spec_font(), text@, position),
        ensures
            r.0@.len() == text@.len(),
            forall|k: int| 0 <= k < text@.len() ==> (#[trigger] r.0@[k])@ == lit_points(
                glyph_of(self.spec_font(), text@[k]),
                pen_at(self.spec_font(), text@, position, k),
                self.spec_font().data@,
            ),
            r.1 == pen_at(self.spec_font(), text@, position, text@.len() as int),
    {
        let font = self.font;
        let ghost f = *font;
        let mut groups: Vec<Vec<Point>> = Vec::new();
        let mut pos = position;
        assert(text@.take(0) =~= Seq::<char>::empty());
        for c in it: text.chars()
            invariant
                it.seq() == text@,
                f == self.spec_font(),
                f == *font,
                can_draw_string(f, text@, position),
                pos == pen_at(f, text@, position, it.index() as int),
                groups@.len() == it.index(),
                forall|k: int| 0 <= k < it.index() ==> (#[trigger] groups@[k])@ == lit_points(
                    glyph_of(f, text@[k]),
                    pen_at(f, text@, position, k),
                    f.data@,
                ),
        {
            let ghost k = it.index() as int;
            assert(text@[k] == c);
            assert(can_lookup(f.glyphs@, f.replacement_character, text@[k]));
            let glyph = font.get_glyph(c);
            assert(can_add_point(glyph_of(f, text@[k]).bounding_box.top_left, pen_at(f, text@, position, k)));
            let pixels = glyph.draw(pos, font.data);
            groups.push(pixels);
            assert(text@.take(k + 1).drop_last() == text@.take(k));
            assert(text@.take(k + 1).last() == c);
            assert(i32::MIN <= pen_x(f, text@.take(k + 1), position.x as int) <= i32::MAX);
            pos.x = pos.x + glyph.device_width as i32;
        }
        assert(text@.take(text@.len() as int) == text@);
        (groups, pos)
    }

    /// Whether `text` can be laid out from `position`: a glyph for every
    /// character, and every pen position and glyph placement in range.
    pub fn can_draw(&self, text: &str, position: Point) -> (b: bool)
        ensures
            b == can_draw_string(self.spec_font(), text@, position),
    {
        let font = self.font;
        let ghost f = *font;
        let mut x: i64 = position.x as i64;
        assert(text@.take(0) =~= Seq::<char>::empty());
        for c in it: text.chars()
            invariant
                it.seq() == text@,
                f == self.spec_font(),
                f == *font,
                forall|j: int| 0 <= j < it.index() ==> can_lookup(f.glyphs@, f.replacement_character, #[trigger] text@[j]),
                forall|k: int| 0 <= k <= it.index() ==> i32::MIN <= #[trigger] pen_x(f, text@.take(k), position.x as int) <= i32::MAX,
                forall|k: int| 0 <= k < it.index() ==> can_add_point(glyph_of(f, #[trigger] text@[k]).bounding_box.top_left, pen_at(f, text@, position, k)),
                x == pen_x(f, text@.take(it.index() as int), position.x as int),
        {
            let ghost k = it.index() as int;
            assert(text@[k] == c);
            if !lookup_ok(font, c) {
                return false;
            }
            let glyph = font.get_glyph(c);
            let tl = glyph.bounding_box.top_left;
            let gx: i64 = tl.x as i64 + x;
            let gy: i64 = tl.y as i64 + position.y as i64;
            assert(pen_at(f, text@, position, k).x == x);
            if gx < -0x8000_0000 || gx > 0x7fff_ffff || gy < -0x8000_0000 || gy > 0x7fff_ffff {
                return false;
            }
            proof { lemma_pen_x_step(f, text@, position.x as int, k); }
            let nx: i64 = x + (glyph.device_width as i32) as i64;
            if nx < -0x8000_0000 || nx > 0x7fff_ffff {
                return false;
            }
            x = nx;
        }
        proof {
            assert(text@.take(text@.len() as int) == text@);
        }
        true
    }

    /// Whether `text` can be measured from `position`: a glyph for every
    /// character, and a width sum that fits a non-negative `i32` that can be
    /// added to `position.x`.
    pub fn can_measure(&self, text: &str, position: Point) -> (b: bool)
        ensures
            b == can_measure_string(self.spec_font(), text@, position),
    {
        let font = self.font;
        let ghost f = *font;
        let mut sum: u64 = 0;
        let mut ok = true;
        for c in it: text.chars()
            invariant
                it.seq() == text@,
                f == self.spec_font(),
                f == *font,
                ok ==> can_lookup_all(f, text@.take(it.index() as int)),
                ok ==> sum == width_sum(f, text@.take(it.index() as int)),
                ok ==> sum <= i32::MAX,
                !ok ==> !can_measure_string(f, text@, position),
        {
            let ghost k = it.index() as int;
            assert(text@[k] == c);
            if ok {
                if !lookup_ok(font, c) {
                    ok = false;
                } else {
                    let glyph = font.get_glyph(c);
                    assert(text@.take(k + 1).drop_last() == text@.take(k));
                    assert(text@.take(k + 1).last() == c);
                    assert forall|j: int| 0 <= j < k + 1 implies can_lookup(f.glyphs@, f.replacement_character, #[trigger] text@.take(k + 1)[j]) by {
                        assert(text@.take(k + 1)[j] == text@[j]);
                        if j < k {
                            assert(text@.take(k)[j] == text@[j]);
                        }
                    }
                    sum = sum + glyph.device_width as u64;
                    if sum > 0x7fff_ffff {
                        proof { lemma_width_sum_prefix(f, text@, k + 1); }
                        ok = false;
                    }
                }
            }
        }
        proof {
            assert(text@.take(text@.len() as int) == text@);
        }
        ok && position.x as i64 + sum as i64 <= 0x7fff_ffff
    }

    /// The pen position after a run of blank space `width` pixels wide.
    pub fn draw_whitespace(&self, width: u32, position: Point) -> (p: Point)
        requires
            can_add_size(position, Size { width, height: 0 }),
        ensures
            p == spec_add_size(position, Size { width, height: 0 }),
    {
        position.add_size(Size::new(width, 0))
    }

    /// Measures `text` drawn from `position`: an empty bounding box at
    /// `position`, and the next position moved right by the sum of the
    /// glyphs' device widths.
    pub fn measure_string(&self, text: &str, position: Point) -> (m: TextMetrics)
        requires
            can_measure_string(self.spec_font(), text@, position),
        ensures
            m.bounding_box == (Rectangle { top_left: position, size: Size { width: 0, height: 0 } }),
            m.next_position == measured_next(self.spec_font(), text@, position),
    {
        let font = self.font;
        let ghost f = *font;
        let mut dx: u32 = 0;
        for c in it: text.chars()
            invariant
                it.seq() == text@,
                f == self.spec_font(),
                f == *font,
                can_measure_string(f, text@, position),
                dx == width_sum(f, text@.take(it.index() as int)),
        {
            let ghost k = it.index() as int;
            assert(text@[k] == c);
            assert(text@.take(k + 1).drop_last() == text@.take(k));
            proof { lemma_width_sum_prefix(f, text@, k + 1); }
            let glyph = font.get_glyph(c);
            dx = dx + glyph.device_width;
        }
        assert(text@.take(text@.len() as int) == text@);
        TextMetrics {
            bounding_box: Rectangle::new(position, Size::zero()),
            next_position: position.add_size(Size::new(dx, 0)),
        }
    }

    /// The font's line height.
    pub fn line_height(&self) -> (h: u32)
        ensures
            h == self.spec_font().line_height,
    {
        self.font.line_height
    }
}

/// A font whose replacement index lies inside its glyph list can draw any
/// string whose pen positions and glyph placements stay in range, also one
/// with characters that have no glyph of their own.
pub proof fn lemma_draw_with_replacement(font: BdfFont, chars: Seq<char>, p: Point)
    requires
        font.replacement_character < font.glyphs@.len(),
        forall|k: int| 0 <= k <= chars.len() ==> i32::MIN <= #[trigger] pen_x(font, chars.take(k), p.x as int) <= i32::MAX,
        forall|k: int| 0 <= k < chars.len() ==> can_add_point(glyph_of(font, #[trigger] chars[k]).bounding_box.top_left, pen_at(font, chars, p, k)),
    ensures
        can_draw_string(font, chars, p),
{
    assert forall|i: int| 0 <= i < chars.len() implies can_lookup(font.glyphs@, font.replacement_character, #[trigger] chars[i]) by {
        crate::font::lemma_lookup_with_replacement(font.glyphs@, font.replacement_character, chars[i]);
    }
}

/// A font whose replacement index lies inside its glyph list can measure any
/// string whose width sum fits a non-negative `i32` that can be added to
/// `p.x`, also one with characters that have no glyph of their own; such a
/// character counts with the replacement glyph's device width.
pub proof fn lemma_measure_with_replacement(font: BdfFont, chars: Seq<char>, p: Point)
    requires
        font.replacement_character < font.glyphs@.len(),
        width_sum(font, chars) <= i32::MAX,
        p.x + width_sum(font, chars) <= i32::MAX,
    ensures
        can_measure_string(font, chars, p),
        forall|i: int| 0 <= i < chars.len() && !has_glyph(font.glyphs@, #[trigger] chars[i])
            ==> glyph_of(font, chars[i]) == font.glyphs@[font.replacement_character as int],
{
    assert forall|i: int| 0 <= i < chars.len() implies can_lookup(font.glyphs@, font.replacement_character, #[trigger] chars[i]) by {
        crate::font::lemma_lookup_with_replacement(font.glyphs@, font.replacement_character, chars[i]);
    }
    assert forall|i: int| 0 <= i < chars.len() && !has_glyph(font.glyphs@, #[trigger] chars[i])
        implies glyph_of(font, chars[i]) == font.glyphs@[font.replacement_character as int] by {
        crate::font::lemma_lookup_with_replacement(font.glyphs@, font.replacement_character, chars[i]);
    }
}

/// One more character moves the pen by its glyph's device width.
pub proof fn lemma_pen_x_step(font: BdfFont, chars: Seq<char>, x: int, k: int)
    requires
        0 <= k < chars.len(),
    ensures
        pen_x(font, chars.take(k + 1), x) == pen_x(font, chars.take(k), x) + (glyph_of(font, chars[k]).device_width as i32),
{
    assert(chars.take(k + 1).drop_last() == chars.take(k));
    assert(chars.take(k + 1).last() == chars[k]);
}

/// The width sum of a prefix is at most the width sum of the whole.
pub proof fn lemma_width_sum_prefix(font: BdfFont, chars: Seq<char>, k: int)
    requires
        0 <= k <= chars.len(),
    ensures
        0 <= width_sum(font, chars.take(k)) <= width_sum(font, chars),
    decreases chars.len(),
{
    if chars.len() > 0 {
        if k == chars.len() {
            assert(chars.take(k) == chars);
            lemma_width_sum_prefix(font, chars.drop_last(), k - 1);
            assert(chars.drop_last().take(k - 1) == chars.drop_last());
        } else {
            lemma_width_sum_prefix(font, chars.drop_last(), k);
            assert(chars.drop_last().take(k) == chars.take(k));
            lemma_width_sum_prefix(font, chars.drop_last(), chars.len() - 1);
            assert(chars.drop_last().take(chars.len() - 1) == chars.drop_last());
        }
    } else {
        assert(chars.take(k) == chars);
    }
}

/// The width sum of a concatenation is the sum of the width sums.
pub proof fn lemma_width_sum_concat(font: BdfFont, a: Seq<char>, b: Seq<char>)
    ensures
        width_sum(font, a + b) == width_sum(font, a) + width_sum(font, b),
    decreases b.len(),
{
    if b.len() == 0 {
        assert(a + b == a);
    } else {
        lemma_width_sum_concat(font, a, b.drop_last());
        assert((a + b).drop_last() == a + b.drop_last());
        assert((a + b).last() == b.last());
    }
}

/// Measuring is additive: measuring `a + b` from `p` ends where measuring
/// `b` ends when started where measuring `a` ends, and measuring the empty
/// string ends at `p`.
pub proof fn lemma_measure_concat(font: BdfFont, a: Seq<char>, b: Seq<char>, p: Point)
    requires
        can_measure_string(font, a + b, p),
    ensures
        can_measure_string(font, a, p),
        can_measure_string(font, b, measured_next(font, a, p)),
        measured_next(font, a + b, p) == measured_next(font, b, measured_next(font, a, p)),
        measured_next(font, Seq::<char>::empty(), p) == p,
{
    lemma_width_sum_concat(font, a, b);
    lemma_width_sum_prefix(font, a + b, a.len() as int);
    assert((a + b).take(a.len() as int) == a);
    assert(width_sum(font, b) >= 0) by {
        lemma_width_sum_prefix(font, b, 0);
    }
    assert forall|i: int| 0 <= i < a.len() implies can_lookup(font.glyphs@, font.replacement_character, #[trigger] a[i]) by {
        assert((a + b)[i] == a[i]);
    }
    assert forall|i: int| 0 <= i < b.len() implies can_lookup(font.glyphs@, font.replacement_character, #[trigger] b[i]) by {
        assert((a + b)[a.len() + i] == b[i]);
    }
    assert(width_sum(font, Seq::<char>::empty()) == 0);
}

/// With widths that sum to at most `i32::MAX`, the pen moves by exactly the
/// width sum.
pub proof fn lemma_pen_x_is_width_sum(font: BdfFont, chars: Seq<char>, x: int)
    requires
        width_sum(font, chars) <= i32::MAX,
    ensures
        pen_x(font, chars, x) == x + width_sum(font, chars),
    decreases chars.len(),
{
    if chars.len() > 0 {
        lemma_width_sum_prefix(font, chars, chars.len() - 1);
        assert(chars.take(chars.len() - 1) == chars.drop_last());
        lemma_pen_x_is_width_sum(font, chars.drop_last(), x);
        let w = glyph_of(font, chars.last()).device_width;
        assert(w <= i32::MAX);
        assert(w as i32 == w);
    }
}

/// Measuring and drawing agree: when a string can be measured from `p`, the
/// pen stays in range at every character while it is drawn, and drawing it
/// ends exactly at the measured next position.
pub proof fn lemma_measure_matches_draw(font: BdfFont, chars: Seq<char>, p: Point)
    requires
        can_measure_string(font, chars, p),
    ensures
        forall|k: int| 0 <= k <= chars.len() ==> i32::MIN <= #[trigger] pen_x(font, chars.take(k), p.x as int) <= i32::MAX,
        pen_at(font, chars, p, chars.len() as int) == (Point {
            x: (p.x + width_sum(font, chars)) as i32,
            y: p.y,
        }),
{
    assert forall|k: int| 0 <= k <= chars.len() implies i32::MIN <= #[trigger] pen_x(font, chars.take(k), p.x as int) <= i32::MAX by {
        lemma_width_sum_prefix(font, chars, k);
        lemma_pen_x_is_width_sum(font, chars.take(k), p.x as int);
    }
    assert(chars.take(chars.len() as int) == chars);
    lemma_pen_x_is_width_sum(font, chars, p.x as int);
}

} // verus!
