//! Properties of conversion that span several steps: where each converted
//! glyph's pixels land in the packed data, which glyph stands in for unknown
//! characters, and how the requested characters split into those found and
//! those missing.

use vstd::prelude::*;

use crate::convert::{
    chars_where, checked_font, distinct, export, glyphs_convertible, has_encoding, literal_of, pack, pixels_of,
    packs, requested, selected, lemma_pack_packs,
};
use crate::font::{bit_at, lemma_lit_points_contains, lit_points, placed_box};
use crate::geometry::{can_add_point, columns, point_at, point_count, rows, Point};
use crate::source::{pixel_of, GlyphModel};

verus! {

/// The glyphs that a conversion for `req` exports, in order.
pub open spec fn selected_glyphs(glyphs: Seq<GlyphModel>, req: Seq<char>) -> Seq<GlyphModel>
    decreases glyphs.len(),
{
    if glyphs.len() == 0 {
        Seq::empty()
    } else {
        let r = selected_glyphs(glyphs.drop_last(), req);
        if selected(glyphs.last(), req) {
            r.push(glyphs.last())
        } else {
            r
        }
    }
}

/// The pixels of all glyphs of `gs`, one glyph after the other.
pub open spec fn all_pixels(gs: Seq<GlyphModel>) -> Seq<bool>
    decreases gs.len(),
{
    if gs.len() == 0 {
        Seq::empty()
    } else {
        all_pixels(gs.drop_last()) + pixels_of(gs.last())
    }
}

/// The shape of a conversion: one record per exported glyph, each starting
/// where the pixels of the glyphs before it end, and the bits are the pixels
/// of the exported glyphs one after the other.
pub proof fn lemma_export_shape(glyphs: Seq<GlyphModel>, req: Seq<char>)
    ensures
        ({
            let st = export(glyphs, req);
            let sel = selected_glyphs(glyphs, req);
            &&& st.glyphs.len() == sel.len()
            &&& st.bits == all_pixels(sel)
            &&& forall|i: int| 0 <= i < sel.len() ==> #[trigger] st.glyphs[i] == literal_of(sel[i], all_pixels(sel.take(i)).len() as int)
        }),
    decreases glyphs.len(),
{
    if glyphs.len() > 0 {
        let prev = glyphs.drop_last();
        lemma_export_shape(prev, req);
        let sel0 = selected_glyphs(prev, req);
        let sel = selected_glyphs(glyphs, req);
        let st = export(glyphs, req);
        if selected(glyphs.last(), req) {
            assert(sel.take(sel0.len() as int) == sel0);
            assert forall|i: int| 0 <= i < sel.len() implies #[trigger] st.glyphs[i] == literal_of(sel[i], all_pixels(sel.take(i)).len() as int) by {
                if i < sel0.len() {
                    assert(sel.take(i) == sel0.take(i));
                }
            }
            assert(sel.drop_last() == sel0);
        }
    }
}

/// Inside the pixels of all glyphs, the pixels of glyph `i` start where those
/// of the glyphs before it end.
pub proof fn lemma_all_pixels_split(gs: Seq<GlyphModel>, i: int)
    requires
        0 <= i < gs.len(),
    ensures
        all_pixels(gs.take(i)).len() + pixels_of(gs[i]).len() <= all_pixels(gs).len(),
        forall|k: int| 0 <= k < pixels_of(gs[i]).len() ==>
            #[trigger] all_pixels(gs)[all_pixels(gs.take(i)).len() + k] == pixels_of(gs[i])[k],
    decreases gs.len(),
{
    let prev = gs.drop_last();
    if i == gs.len() - 1 {
        assert(gs.take(i) == prev);
    } else {
        lemma_all_pixels_split(prev, i);
        assert(prev.take(i) == gs.take(i));
        assert(prev[i] == gs[i]);
    }
}

/// What the packed data gives back: for each converted glyph, the bits of
/// the data from its start index on are the pixels of the source glyph it
/// was converted from, row by row. With the draw contract (a point is lit
/// exactly when its bit is set), a converted glyph lights exactly the
/// source glyph's set pixels.
pub proof fn lemma_converted_pixels(glyphs: Seq<GlyphModel>, req: Seq<char>, i: int, k: int)
    requires
        export(glyphs, req).bits.len() <= usize::MAX,
        0 <= i < export(glyphs, req).glyphs.len(),
        0 <= k < pixels_of(selected_glyphs(glyphs, req)[i]).len(),
    ensures
        ({
            let st = export(glyphs, req);
            let g = selected_glyphs(glyphs, req)[i];
            let w = g.bounding_box.size.x as int;
            &&& st.glyphs[i] == literal_of(g, st.glyphs[i].start_index as int)
            &&& bit_at(pack(st.bits), st.glyphs[i].start_index + k) == pixel_of(g, k % w, k / w)
        }),
{
    lemma_export_shape(glyphs, req);
    let st = export(glyphs, req);
    let sel = selected_glyphs(glyphs, req);
    lemma_all_pixels_split(sel, i);
    lemma_pack_packs(st.bits);
    let start = all_pixels(sel.take(i)).len() as int;
    assert(st.glyphs[i].start_index as int == start);
    assert(packs(pack(st.bits), st.bits));
    assert(start + k < st.bits.len());
    assert(bit_at(pack(st.bits), start + k) == st.bits[start + k]);
}

/// Every exported glyph was selected.
proof fn lemma_selected_glyphs_selected(glyphs: Seq<GlyphModel>, req: Seq<char>)
    ensures
        forall|j: int| 0 <= j < selected_glyphs(glyphs, req).len() ==> selected(#[trigger] selected_glyphs(glyphs, req)[j], req),
        forall|i: int| 0 <= i < glyphs.len() && selected(#[trigger] glyphs[i], req) ==> selected_glyphs(glyphs, req).contains(glyphs[i]),
    decreases glyphs.len(),
{
    if glyphs.len() > 0 {
        let prev = glyphs.drop_last();
        lemma_selected_glyphs_selected(prev, req);
        let s0 = selected_glyphs(prev, req);
        let s = selected_glyphs(glyphs, req);
        assert forall|i: int| 0 <= i < glyphs.len() && selected(#[trigger] glyphs[i], req) implies s.contains(glyphs[i]) by {
            if i < glyphs.len() - 1 {
                assert(prev[i] == glyphs[i]);
                let j = choose|j: int| 0 <= j < s0.len() && s0[j] == prev[i];
                if selected(glyphs.last(), req) {
                    assert(s[j] == s0[j]);
                }
            } else {
                assert(s[s.len() - 1] == glyphs.last());
            }
        }
    }
}

/// Conversion exports what was asked for: when characters are requested,
/// every exported glyph is for a requested character, and every requested
/// character that the font has gets a glyph; when none are requested, every
/// glyph with an encoding is exported, in file order.
pub proof fn lemma_exported_characters(glyphs: Seq<GlyphModel>, req: Seq<char>)
    ensures
        ({
            let st = export(glyphs, req);
            &&& req.len() > 0 ==> forall|i: int| 0 <= i < st.glyphs.len() ==> req.contains(#[trigger] st.glyphs[i].character)
            &&& forall|c: char| req.contains(c) && has_encoding(glyphs, c) ==> exists|i: int| 0 <= i < st.glyphs.len() && #[trigger] st.glyphs[i].character == c
            &&& req.len() == 0 ==> selected_glyphs(glyphs, req) == glyphs.filter(|g: GlyphModel| g.encoding is Some)
        }),
    decreases glyphs.len(),
{
    lemma_export_shape(glyphs, req);
    lemma_selected_glyphs_selected(glyphs, req);
    let st = export(glyphs, req);
    let sel = selected_glyphs(glyphs, req);
    assert forall|i: int| 0 <= i < st.glyphs.len() implies st.glyphs[i].character == sel[i].encoding->0 by {}
    assert forall|c: char| req.contains(c) && has_encoding(glyphs, c) implies exists|i: int| 0 <= i < st.glyphs.len() && #[trigger] st.glyphs[i].character == c by {
        let k = choose|k: int| 0 <= k < glyphs.len() && #[trigger] glyphs[k].encoding == Some(c);
        assert(selected(glyphs[k], req));
        let j = choose|j: int| 0 <= j < sel.len() && sel[j] == glyphs[k];
        assert(st.glyphs[j].character == c);
    }
    if req.len() == 0 && glyphs.len() > 0 {
        lemma_exported_characters(glyphs.drop_last(), req);
        reveal_with_fuel(Seq::filter, 1);
    }
}

/// A converted glyph lights exactly the set pixels of the source glyph it
/// was converted from: drawn at `pos`, with its placed box not clamped at the
/// edge of the `i32` range, the point in column `x` and row `y` of the box is
/// lit exactly when the source pixel `(x, y)` is set.
pub proof fn lemma_drawn_glyph_matches_source(
    glyphs: Seq<GlyphModel>,
    req: Seq<char>,
    i: int,
    pos: Point,
    x: int,
    y: int,
)
    requires
        export(glyphs, req).bits.len() <= usize::MAX,
        0 <= i < export(glyphs, req).glyphs.len(),
        0 <= x < selected_glyphs(glyphs, req)[i].bounding_box.size.x,
        0 <= y < selected_glyphs(glyphs, req)[i].bounding_box.size.y,
        can_add_point(export(glyphs, req).glyphs[i].bounding_box.top_left, pos),
        columns(placed_box(export(glyphs, req).glyphs[i], pos)) == selected_glyphs(glyphs, req)[i].bounding_box.size.x,
        rows(placed_box(export(glyphs, req).glyphs[i], pos)) == selected_glyphs(glyphs, req)[i].bounding_box.size.y,
    ensures
        ({
            let st = export(glyphs, req);
            let r = placed_box(st.glyphs[i], pos);
            let p = Point { x: (r.top_left.x + x) as i32, y: (r.top_left.y + y) as i32 };
            lit_points(st.glyphs[i], pos, pack(st.bits)).contains(p) <==> pixel_of(selected_glyphs(glyphs, req)[i], x, y)
        }),
{
    let st = export(glyphs, req);
    let g = selected_glyphs(glyphs, req)[i];
    let out = st.glyphs[i];
    let r = placed_box(out, pos);
    let w = g.bounding_box.size.x as int;
    let h = g.bounding_box.size.y as int;
    lemma_export_shape(glyphs, req);
    assert(out == literal_of(g, out.start_index as int));
    assert(r.size.width as int == w && r.size.height as int == h);
    let k = y * w + x;
    vstd::arithmetic::div_mod::lemma_fundamental_div_mod_converse(k, w, y, x);
    assert(point_count(r) == w * h);
    assert(k < w * h) by (nonlinear_arith)
        requires k == y * w + x, x < w, y < h, y >= 0, x >= 0;
    assert(k >= 0) by (nonlinear_arith)
        requires k == y * w + x, w > 0, y >= 0, x >= 0;
    assert(pixels_of(g).len() == w * h);
    lemma_converted_pixels(glyphs, req, i, k);
    lemma_lit_points_contains(r, out.start_index as int, pack(st.bits), point_count(r), k);
    assert(point_at(r, k) == Point { x: (r.top_left.x + x) as i32, y: (r.top_left.y + y) as i32 });
}

/// The replacement glyph of a conversion: the last exported U+FFFD glyph if
/// there is one, else the first exported space, else none (the first glyph
/// is then used).
pub proof fn lemma_replacement_choice(glyphs: Seq<GlyphModel>, req: Seq<char>)
    ensures
        ({
            let st = export(glyphs, req);
            let gs = st.glyphs;
            &&& (exists|i: int| 0 <= i < gs.len() && gs[i].character == '\u{FFFD}') ==> (st.replacement matches Some(r) && 0 <= r < gs.len() && gs[r].character == '\u{FFFD}' && forall|j: int| r < j < gs.len() ==> gs[j].character != '\u{FFFD}')
            &&& (!exists|i: int| 0 <= i < gs.len() && gs[i].character == '\u{FFFD}') && (exists|i: int| 0 <= i < gs.len() && gs[i].character == ' ') ==> (st.replacement matches Some(r) && 0 <= r < gs.len() && gs[r].character == ' ' && forall|j: int| 0 <= j < r ==> gs[j].character != ' ')
            &&& (!exists|i: int| 0 <= i < gs.len() && (gs[i].character == '\u{FFFD}' || gs[i].character == ' ')) ==> st.replacement is None
        }),
    decreases glyphs.len(),
{
    if glyphs.len() > 0 {
        let prev = glyphs.drop_last();
        lemma_replacement_choice(prev, req);
        let st0 = export(prev, req);
        let st = export(glyphs, req);
        let g = glyphs.last();
        if selected(g, req) {
            let gs0 = st0.glyphs;
            let gs = st.glyphs;
            let n = gs0.len() as int;
            assert(gs.drop_last() == gs0);
            assert(gs[n].character == g.encoding->0);
            assert forall|i: int| 0 <= i < n implies gs[i] == gs0[i] by {}
            if exists|i: int| 0 <= i < gs.len() && gs[i].character == '\u{FFFD}' {
                if g.encoding->0 != '\u{FFFD}' {
                    let i = choose|i: int| 0 <= i < gs.len() && gs[i].character == '\u{FFFD}';
                    assert(i < n);
                    assert(gs0[i].character == '\u{FFFD}');
                }
            }
            if (!exists|i: int| 0 <= i < gs.len() && gs[i].character == '\u{FFFD}') && (exists|i: int| 0 <= i < gs.len() && gs[i].character == ' ') {
                assert(!exists|i: int| 0 <= i < gs0.len() && gs0[i].character == '\u{FFFD}') by {
                    if exists|i: int| 0 <= i < gs0.len() && gs0[i].character == '\u{FFFD}' {
                        let i = choose|i: int| 0 <= i < gs0.len() && gs0[i].character == '\u{FFFD}';
                        assert(gs[i].character == '\u{FFFD}');
                    }
                }
                if exists|i: int| 0 <= i < gs0.len() && gs0[i].character == ' ' {
                    let i = choose|i: int| 0 <= i < gs0.len() && gs0[i].character == ' ';
                    assert(st0.replacement is Some);
                }
            }
            if !exists|i: int| 0 <= i < gs.len() && (gs[i].character == '\u{FFFD}' || gs[i].character == ' ') {
                assert(!(gs[n].character == '\u{FFFD}' || gs[n].character == ' '));
                assert(!exists|i: int| 0 <= i < gs0.len() && (gs0[i].character == '\u{FFFD}' || gs0[i].character == ' ')) by {
                    if exists|i: int| 0 <= i < gs0.len() && (gs0[i].character == '\u{FFFD}' || gs0[i].character == ' ') {
                        let i = choose|i: int| 0 <= i < gs0.len() && (gs0[i].character == '\u{FFFD}' || gs0[i].character == ' ');
                        assert(gs[i] == gs0[i]);
                    }
                }
            }
        }
    }
}

/// The requested characters split into those the font has and those it
/// lacks: each requested character is in exactly one of the two lists, and
/// the lists hold nothing else.
pub proof fn lemma_scope_and_left_partition(req: Seq<char>, glyphs: Seq<GlyphModel>, c: char)
    ensures
        chars_where(req, glyphs, true).contains(c) <==> (req.contains(c) && has_encoding(glyphs, c)),
        chars_where(req, glyphs, false).contains(c) <==> (req.contains(c) && !has_encoding(glyphs, c)),
    decreases req.len(),
{
    if req.len() > 0 {
        let prev = req.drop_last();
        lemma_scope_and_left_partition(prev, glyphs, c);
        if req.contains(c) && req.last() != c {
            let i = choose|i: int| 0 <= i < req.len() && req[i] == c;
            assert(prev[i] == c);
        }
        if prev.contains(c) {
            let i = choose|i: int| 0 <= i < prev.len() && prev[i] == c;
            assert(req[i] == c);
        }
        assert(req[req.len() - 1] == req.last());
        let t = chars_where(prev, glyphs, true);
        let f = chars_where(prev, glyphs, false);
        assert(t.push(req.last())[t.len() as int] == req.last());
        assert(f.push(req.last())[f.len() as int] == req.last());
        if t.push(req.last()).contains(c) && c != req.last() {
            let i = choose|i: int| 0 <= i < t.len() + 1 && t.push(req.last())[i] == c;
            assert(t[i] == c);
        }
        if f.push(req.last()).contains(c) && c != req.last() {
            let i = choose|i: int| 0 <= i < f.len() + 1 && f.push(req.last())[i] == c;
            assert(f[i] == c);
        }
        if t.contains(c) {
            let i = choose|i: int| 0 <= i < t.len() && t[i] == c;
            assert(t.push(req.last())[i] == c);
        }
        if f.contains(c) {
            let i = choose|i: int| 0 <= i < f.len() && f[i] == c;
            assert(f.push(req.last())[i] == c);
        }
    }
}

/// Two requests with the same characters select the same glyphs.
proof fn lemma_same_set_same_selection(r1: Seq<char>, r2: Seq<char>, g: GlyphModel)
    requires
        forall|c: char| r1.contains(c) <==> r2.contains(c),
    ensures
        selected(g, r1) == selected(g, r2),
{
    if r1.len() > 0 {
        assert(r1.contains(r1[0]));
        assert(r2.contains(r1[0]));
    }
    if r2.len() > 0 {
        assert(r2.contains(r2[0]));
        assert(r1.contains(r2[0]));
    }
}

/// Conversion depends only on the set of requested characters: two
/// requests with the same characters, in any order and with any repeats,
/// export the same glyph records and bits and choose the same replacement.
pub proof fn lemma_export_depends_on_request_set(glyphs: Seq<GlyphModel>, r1: Seq<char>, r2: Seq<char>)
    requires
        forall|c: char| r1.contains(c) <==> r2.contains(c),
    ensures
        export(glyphs, r1) == export(glyphs, r2),
    decreases glyphs.len(),
{
    if glyphs.len() > 0 {
        lemma_export_depends_on_request_set(glyphs.drop_last(), r1, r2);
        lemma_same_set_same_selection(r1, r2, glyphs.last());
    }
}

/// What a conversion of the BDF bytes `input` gives depends only on the
/// set of characters of the request string: two strings with the same
/// characters fail alike or convert to the same glyph records, bits and
/// replacement, and name the same characters as found and as missing; an
/// empty request string asks for the same as no request.
pub proof fn lemma_conversion_depends_on_char_set(input: Seq<u8>, s: Seq<char>, t: Seq<char>)
    requires
        forall|c: char| s.contains(c) <==> t.contains(c),
    ensures
        ({
            let r1 = requested(Some(s));
            let r2 = requested(Some(t));
            &&& checked_font(input, r1) == checked_font(input, r2)
            &&& forall|glyphs: Seq<GlyphModel>| #[trigger] export(glyphs, r1) == export(glyphs, r2)
            &&& forall|glyphs: Seq<GlyphModel>, c: char| #[trigger] chars_where(r1, glyphs, false).contains(c) <==> chars_where(r2, glyphs, false).contains(c)
            &&& forall|glyphs: Seq<GlyphModel>, c: char| #[trigger] chars_where(r1, glyphs, true).contains(c) <==> chars_where(r2, glyphs, true).contains(c)
        }),
        requested(Some(Seq::<char>::empty())) == requested(None),
{
    let r1 = requested(Some(s));
    let r2 = requested(Some(t));
    lemma_distinct(s);
    lemma_distinct(t);
    assert(r1 == distinct(s) && r2 == distinct(t));
    assert forall|c: char| r1.contains(c) <==> r2.contains(c) by {
        assert(distinct(s).contains(c) <==> s.contains(c));
        assert(distinct(t).contains(c) <==> t.contains(c));
    }
    assert forall|glyphs: Seq<GlyphModel>| #[trigger] export(glyphs, r1) == export(glyphs, r2) by {
        lemma_export_depends_on_request_set(glyphs, r1, r2);
    }
    assert forall|glyphs: Seq<GlyphModel>, c: char| #[trigger] chars_where(r1, glyphs, false).contains(c) <==> chars_where(r2, glyphs, false).contains(c) by {
        lemma_scope_and_left_partition(r1, glyphs, c);
        lemma_scope_and_left_partition(r2, glyphs, c);
    }
    assert forall|glyphs: Seq<GlyphModel>, c: char| #[trigger] chars_where(r1, glyphs, true).contains(c) <==> chars_where(r2, glyphs, true).contains(c) by {
        lemma_scope_and_left_partition(r1, glyphs, c);
        lemma_scope_and_left_partition(r2, glyphs, c);
    }
    match crate::source::bdf_parse(input) {
        Some(f) => {
            assert forall|i: int| 0 <= i < f.glyphs.len() implies selected(#[trigger] f.glyphs[i], r1) == selected(f.glyphs[i], r2) by {
                lemma_same_set_same_selection(r1, r2, f.glyphs[i]);
            }
            assert(glyphs_convertible(f, r1) == glyphs_convertible(f, r2));
        },
        None => {},
    }
}

/// Removing repeats keeps exactly the characters of `s` and leaves none
/// twice.
pub proof fn lemma_distinct(s: Seq<char>)
    ensures
        distinct(s).no_duplicates(),
        forall|c: char| distinct(s).contains(c) <==> s.contains(c),
    decreases s.len(),
{
    if s.len() > 0 {
        let prev = s.drop_last();
        lemma_distinct(prev);
        let d = distinct(prev);
        assert forall|c: char| distinct(s).contains(c) <==> s.contains(c) by {
            if s.contains(c) && s.last() != c {
                let i = choose|i: int| 0 <= i < s.len() && s[i] == c;
                assert(prev[i] == c);
            }
            if prev.contains(c) {
                let i = choose|i: int| 0 <= i < prev.len() && prev[i] == c;
                assert(s[i] == c);
            }
            assert(s[s.len() - 1] == s.last());
            if !d.contains(s.last()) {
                let e = d.push(s.last());
                assert(e[d.len() as int] == s.last());
                if e.contains(c) && c != s.last() {
                    let i = choose|i: int| 0 <= i < e.len() && e[i] == c;
                    assert(d[i] == c);
                }
                if d.contains(c) {
                    let i = choose|i: int| 0 <= i < d.len() && d[i] == c;
                    assert(e[i] == c);
                }
            }
        }
    }
}

} // verus!
