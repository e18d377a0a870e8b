//! Converted fonts: glyph lookup by character and the pixels a glyph lights.

use vstd::prelude::*;

use crate::geometry::{can_add_point, columns, point_at, point_count, rows, spec_add_point, Point, Rectangle};

verus! {

/// One glyph of a converted font. Its pixels are the bits of the font's
/// data from `start_index` on, one per point of `bounding_box` in row-major
/// order, most significant bit of each byte first.
#[derive(Debug, Clone, Copy, PartialEq, Eq, PartialOrd, Ord, Hash)]
pub struct BdfGlyph {
    pub character: char,
    pub bounding_box: Rectangle,
    pub device_width: u32,
    pub start_index: usize,
}

/// A converted font: its glyphs, the packed pixel data they index into, the
/// line height and the index of the glyph drawn for unknown characters.
#[derive(Debug, Clone, Copy, PartialEq, Eq, PartialOrd, Ord, Hash)]
pub struct BdfFont<'a> {
    pub replacement_character: usize,
    pub line_height: u32,
    pub glyphs: &'a [BdfGlyph],
    pub data: &'a [u8],
}

/// Bit `i` of `data`, counting from the most significant bit of the first
/// byte; `false` past the end of the data.
pub open spec fn bit_at(data: Seq<u8>, i: int) -> bool {
    &&& 0 <= i < 8 * data.len()
    &&& (data[i / 8] >> ((7 - i % 8) as u8)) & 1u8 == 1u8
}

/// `i` is the first index of a glyph for `c`.
pub open spec fn is_first_match(glyphs: Seq<BdfGlyph>, c: char, i: int) -> bool {
    &&& 0 <= i < glyphs.len()
    &&& glyphs[i].character == c
    &&& forall|j: int| 0 <= j < i ==> glyphs[j].character != c
}

/// Some glyph is for `c`.
pub open spec fn has_glyph(glyphs: Seq<BdfGlyph>, c: char) -> bool {
    exists|i: int| 0 <= i < glyphs.len() && glyphs[i].character == c
}

/// The index of the glyph that stands for `c`: the first glyph for `c`, or
/// else the replacement glyph.
pub open spec fn glyph_index(glyphs: Seq<BdfGlyph>, replacement: usize, c: char) -> int {
    if exists|i: int| is_first_match(glyphs, c, i) {
        choose|i: int| is_first_match(glyphs, c, i)
    } else {
        replacement as int
    }
}

/// Whether a glyph can be found for `c` without running off the glyph list.
pub open spec fn can_lookup(glyphs: Seq<BdfGlyph>, replacement: usize, c: char) -> bool {
    has_glyph(glyphs, c) || replacement < glyphs.len()
}

/// Among the first `k` points of `r` in row-major order, those whose bit of
/// `data` is set, point `j` being paired with bit `start + j`; in order.
pub open spec fn lit_points_upto(r: Rectangle, start: int, data: Seq<u8>, k: int) -> Seq<Point>
    decreases k,
{
    if k <= 0 {
        Seq::empty()
    } else {
        let prev = lit_points_upto(r, start, data, k - 1);
        if bit_at(data, start + k - 1) {
            prev.push(point_at(r, k - 1))
        } else {
            prev
        }
    }
}

/// The bounding box of `g` moved to `position`.
pub open spec fn placed_box(g: BdfGlyph, position: Point) -> Rectangle {
    Rectangle { top_left: spec_add_point(g.bounding_box.top_left, position), size: g.bounding_box.size }
}

/// The points that `g` drawn at `position` with pixel data `data` lights, in
/// drawing order.
pub open spec fn lit_points(g: BdfGlyph, position: Point, data: Seq<u8>) -> Seq<Point> {
    let r = placed_box(g, position);
    lit_points_upto(r, g.start_index as int, data, point_count(r))
}

/// The first index of a glyph for `c` is unique.
pub proof fn lemma_first_match_unique(glyphs: Seq<BdfGlyph>, c: char, i: int, j: int)
    requires
        is_first_match(glyphs, c, i),
        is_first_match(glyphs, c, j),
    ensures
        i == j,
{
}

/// With the replacement index inside the glyph list every character can be
/// looked up: a character with a glyph of its own stands by the first such
/// glyph, and any other character by the replacement glyph.
pub proof fn lemma_lookup_with_replacement(glyphs: Seq<BdfGlyph>, replacement: usize, c: char)
    requires
        replacement < glyphs.len(),
    ensures
        can_lookup(glyphs, replacement, c),
        0 <= glyph_index(glyphs, replacement, c) < glyphs.len(),
        !has_glyph(glyphs, c) ==> glyph_index(glyphs, replacement, c) == replacement,
        has_glyph(glyphs, c) ==> glyphs[glyph_index(glyphs, replacement, c)].character == c,
{
    if has_glyph(glyphs, c) {
        lemma_has_glyph_first_match(glyphs, c);
    } else {
        assert(!exists|i: int| is_first_match(glyphs, c, i));
    }
}

/// A character that has a glyph has a first one.
proof fn lemma_has_glyph_first_match(glyphs: Seq<BdfGlyph>, c: char)
    requires
        has_glyph(glyphs, c),
    ensures
        exists|i: int| is_first_match(glyphs, c, i),
    decreases glyphs.len(),
{
    if glyphs.last().character == c && !has_glyph(glyphs.drop_last(), c) {
        assert forall|j: int| 0 <= j < glyphs.len() - 1 implies #[trigger] glyphs[j].character != c by {
            assert(glyphs.drop_last()[j] == glyphs[j]);
        }
        assert(is_first_match(glyphs, c, glyphs.len() - 1));
    } else if has_glyph(glyphs.drop_last(), c) {
        lemma_has_glyph_first_match(glyphs.drop_last(), c);
        let i = choose|i: int| is_first_match(glyphs.drop_last(), c, i);
        assert forall|j: int| 0 <= j < i implies #[trigger] glyphs[j].character != c by {
            assert(glyphs.drop_last()[j] == glyphs[j]);
        }
        assert(glyphs.drop_last()[i] == glyphs[i]);
        assert(is_first_match(glyphs, c, i));
    } else {
        let i = choose|i: int| 0 <= i < glyphs.len() && glyphs[i].character == c;
        if i < glyphs.len() - 1 {
            assert(glyphs.drop_last()[i].character == c);
        }
    }
}

/// Once the data has run out, no further point is lit.
proof fn lemma_lit_points_exhausted(r: Rectangle, start: int, data: Seq<u8>, k: int, n: int)
    requires
        0 <= k <= n,
        start + k >= 8 * data.len(),
    ensures
        lit_points_upto(r, start, data, n) == lit_points_upto(r, start, data, k),
    decreases n - k,
{
    if n > k {
        lemma_lit_points_exhausted(r, start, data, k, n - 1);
    }
}

/// Distinct indices give distinct points of a rectangle's point iteration.
pub proof fn lemma_point_at_injective(r: Rectangle, k1: int, k2: int)
    requires
        0 <= k1 < point_count(r),
        0 <= k2 < point_count(r),
        point_at(r, k1) == point_at(r, k2),
    ensures
        k1 == k2,
{
    let c = columns(r);
    let n = rows(r);
    assert(c > 0 && n > 0) by (nonlinear_arith)
        requires c * n > 0, c >= 0, n >= 0;
    assert(k1 / c < n && k2 / c < n) by (nonlinear_arith)
        requires k1 < c * n, k2 < c * n, k1 >= 0, k2 >= 0, c > 0;
    assert(0 <= k1 % c < c && 0 <= k2 % c < c && k1 / c >= 0 && k2 / c >= 0) by (nonlinear_arith)
        requires c > 0, k1 >= 0, k2 >= 0;
    assert(k1 % c == k2 % c);
    assert(k1 / c == k2 / c);
    vstd::arithmetic::div_mod::lemma_fundamental_div_mod(k1, c);
    vstd::arithmetic::div_mod::lemma_fundamental_div_mod(k2, c);
}

/// Every point among the lit points of the first `m` is the point of some
/// earlier index whose bit is set.
proof fn lemma_lit_points_origin(r: Rectangle, start: int, data: Seq<u8>, m: int, e: Point)
    requires
        lit_points_upto(r, start, data, m).contains(e),
    ensures
        exists|j: int| 0 <= j < m && point_at(r, j) == e && bit_at(data, start + j),
    decreases m,
{
    if m > 0 {
        let prev = lit_points_upto(r, start, data, m - 1);
        if prev.contains(e) {
            lemma_lit_points_origin(r, start, data, m - 1, e);
        } else {
            let s = lit_points_upto(r, start, data, m);
            let i = choose|i: int| 0 <= i < s.len() && s[i] == e;
            assert(bit_at(data, start + m - 1));
            assert(s == prev.push(point_at(r, m - 1)));
            if i < prev.len() {
                assert(prev[i] == e);
            }
            assert(point_at(r, m - 1) == e);
        }
    }
}

/// A point of the rectangle is among the lit points exactly when its bit is
/// set.
pub proof fn lemma_lit_points_contains(r: Rectangle, start: int, data: Seq<u8>, n: int, k: int)
    requires
        0 <= k < n <= point_count(r),
    ensures
        lit_points_upto(r, start, data, n).contains(point_at(r, k)) <==> bit_at(data, start + k),
    decreases n,
{
    let prev = lit_points_upto(r, start, data, n - 1);
    let s = lit_points_upto(r, start, data, n);
    if k < n - 1 {
        lemma_lit_points_contains(r, start, data, n - 1, k);
        if bit_at(data, start + n - 1) {
            assert(s == prev.push(point_at(r, n - 1)));
            if prev.contains(point_at(r, k)) {
                let i = choose|i: int| 0 <= i < prev.len() && prev[i] == point_at(r, k);
                assert(s[i] == point_at(r, k));
            }
            if s.contains(point_at(r, k)) && !prev.contains(point_at(r, k)) {
                let i = choose|i: int| 0 <= i < s.len() && s[i] == point_at(r, k);
                if i < prev.len() {
                    assert(prev[i] == point_at(r, k));
                }
                lemma_point_at_injective(r, k, n - 1);
            }
        }
    } else {
        if prev.contains(point_at(r, k)) {
            lemma_lit_points_origin(r, start, data, n - 1, point_at(r, k));
            let j = choose|j: int| 0 <= j < n - 1 && point_at(r, j) == point_at(r, k) && bit_at(data, start + j);
            lemma_point_at_injective(r, j, k);
        }
        if bit_at(data, start + k) {
            assert(s == prev.push(point_at(r, k)));
            assert(s[prev.len() as int] == point_at(r, k));
        } else {
            assert(s == prev);
        }
    }
}

impl<'a> BdfFont<'a> {
    /// The glyph for `c`: the first glyph whose character is `c`, or the
    /// replacement glyph when the font has none.
    pub fn get_glyph(&self, c: char) -> (g: &'a BdfGlyph)
        requires
            can_lookup(self.glyphs@, self.replacement_character, c),
        ensures
            *g == self.glyphs@[glyph_index(self.glyphs@, self.replacement_character, c)],
            has_glyph(self.glyphs@, c) ==> g.character == c,
    {
        let glyphs = self.glyphs;
        let mut i: usize = 0;
        while i < glyphs.len()
            invariant
                i <= glyphs@.len(),
                glyphs@ == self.glyphs@,
                forall|j: int| 0 <= j < i ==> glyphs@[j].character != c,
            decreases glyphs@.len() - i,
        {
            if glyphs[i].character == c {
                proof {
                    assert(is_first_match(glyphs@, c, i as int));
                    let k = choose|k: int| is_first_match(glyphs@, c, k);
                    lemma_first_match_unique(glyphs@, c, i as int, k);
                }
                return &glyphs[i];
            }
            i = i + 1;
        }
        assert(!exists|k: int| is_first_match(glyphs@, c, k));
        assert(!has_glyph(glyphs@, c));
        &glyphs[self.replacement_character]
    }
}

impl BdfGlyph {
    /// The points that drawing the glyph at `position` lights, in the order
    /// in which they are drawn. The points of the translated bounding box are
    /// taken in row-major order and paired with the bits of `data` from
    /// `start_index` on; a point is lit when its bit is set, and the pairing
    /// stops where the data ends.
    pub fn draw(&self, position: Point, data: &[u8]) -> (pixels: Vec<Point>)
        requires
            can_add_point(self.bounding_box.top_left, position),
        ensures
            pixels@ == lit_points(*self, position, data@),
    {
        let r = self.bounding_box.translate(position);
        let (ncols, nrows) = r.grid();
        assert(ncols * nrows <= u32::MAX * u32::MAX) by (nonlinear_arith)
            requires ncols <= u32::MAX, nrows <= u32::MAX;
        let total: u64 = ncols * nrows;
        let bits: u128 = 8 * (data.len() as u128);
        let start: u128 = self.start_index as u128;
        let avail: u128 = if start < bits { bits - start } else { 0 };
        let n: u64 = if (total as u128) < avail { total } else { avail as u64 };
        let mut pixels: Vec<Point> = Vec::new();
        let mut k: u64 = 0;
        let mut row: u64 = 0;
        let mut col: u64 = 0;
        assert(total > 0 ==> ncols > 0) by (nonlinear_arith)
            requires total == ncols * nrows;
        while k < n
            invariant
                n <= total,
                total == ncols * nrows,
                total == point_count(r),
                total > 0 ==> ncols == columns(r) && nrows == rows(r),
                r == placed_box(*self, position),
                start == self.start_index,
                bits == 8 * data@.len(),
                n == total || start + n >= bits,
                start + n <= bits || n == 0,
                ncols <= u32::MAX,
                nrows <= u32::MAX,
                k <= n,
                col < ncols || total == 0,
                k == row * ncols + col,
                pixels@ == lit_points_upto(r, start as int, data@, k as int),
            decreases n - k,
        {
            let idx: u128 = start + k as u128;
            let byte: u8 = data[(idx / 8) as usize];
            let shift: u8 = (7 - idx % 8) as u8;
            proof {
                assert(total > 0);
                vstd::arithmetic::div_mod::lemma_fundamental_div_mod_converse(
                    k as int, ncols as int, row as int, col as int);
                assert(row < nrows) by (nonlinear_arith)
                    requires k == row * ncols + col, k < ncols * nrows, col < ncols, ncols > 0;
            }
            if (byte >> shift) & 1 == 1 {
                let p = Point {
                    x: (r.top_left.x as i64 + col as i64) as i32,
                    y: (r.top_left.y as i64 + row as i64) as i32,
                };
                pixels.push(p);
            }
            k = k + 1;
            col = col + 1;
            if col == ncols {
                assert(k == (row + 1) * ncols) by (nonlinear_arith)
                    requires k == row * ncols + col, col == ncols;
                col = 0;
                row = row + 1;
            }
        }
        proof {
            if n < total {
                lemma_lit_points_exhausted(r, start as int, data@, n as int, total as int);
            }
        }
        pixels
    }
}

} // verus!
