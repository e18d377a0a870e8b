//! Rendering of converted glyphs and data as Rust source text, in the shape
//! that `{:?}` gives them.

use vstd::prelude::*;

use crate::font::BdfGlyph;
use crate::geometry::{Point, Rectangle, Size};
use crate::text::push_char;

verus! {

/// The decimal digit `d` as a character.
pub open spec fn digit_char(d: int) -> char {
    ((48 + d) as u8) as char
}

/// The decimal text of `n`.
pub open spec fn dec_nat(n: nat) -> Seq<char>
    decreases n,
{
    if n < 10 {
        seq![digit_char(n as int)]
    } else {
        dec_nat(n / 10).push(digit_char((n % 10) as int))
    }
}

/// The decimal text of `n`, with a leading minus sign when negative.
pub open spec fn dec_int(n: int) -> Seq<char> {
    if n < 0 {
        seq!['-'] + dec_nat((-n) as nat)
    } else {
        dec_nat(n as nat)
    }
}

/// The number that the decimal digits `s` denote, read from the left.
pub open spec fn digits_value(s: Seq<char>) -> int
    decreases s.len(),
{
    if s.len() == 0 {
        0
    } else {
        digits_value(s.drop_last()) * 10 + (s.last() as int - 48)
    }
}

/// `c` is one of the decimal digits `0` to `9`.
pub open spec fn is_digit(c: char) -> bool {
    48 <= c as int <= 57
}

/// The decimal text of `n` is a canonical decimal numeral for `n`: it is
/// not empty, it consists of decimal digits, it reads back as `n`, and it
/// starts with `0` only when `n` is zero.
pub proof fn lemma_dec_nat_reads_back(n: nat)
    ensures
        dec_nat(n).len() >= 1,
        forall|i: int| 0 <= i < dec_nat(n).len() ==> is_digit(#[trigger] dec_nat(n)[i]),
        digits_value(dec_nat(n)) == n,
        dec_nat(n)[0] == '0' ==> n == 0,
    decreases n,
{
    if n < 10 {
        let d = dec_nat(n);
        assert(d == seq![digit_char(n as int)]);
        assert(digit_char(n as int) as int == 48 + n);
        assert(d.drop_last() =~= Seq::<char>::empty());
        assert(digits_value(d.drop_last()) == 0);
        assert(d.last() == digit_char(n as int));
        assert(digits_value(d) == digits_value(d.drop_last()) * 10 + (d.last() as int - 48));
    } else {
        let q = (n / 10) as nat;
        let r = n % 10;
        lemma_dec_nat_reads_back(q);
        let d = dec_nat(n);
        assert(d == dec_nat(q).push(digit_char(r as int)));
        assert(digit_char(r as int) as int == 48 + r);
        assert(d.drop_last() == dec_nat(q));
        assert(d[0] == dec_nat(q)[0]);
        assert(q >= 1);
        assert forall|i: int| 0 <= i < d.len() implies is_digit(#[trigger] d[i]) by {
            if i < d.len() - 1 {
                assert(d[i] == dec_nat(q)[i]);
            }
        }
        assert(d.last() == digit_char(r as int));
        assert(digits_value(d) == digits_value(d.drop_last()) * 10 + (d.last() as int - 48));
        assert(digits_value(d) == q * 10 + r);
        assert(n == q * 10 + r);
    }
}

/// The decimal text of a negative number is a minus sign followed by the
/// canonical numeral of its magnitude; of any other number, its numeral.
pub proof fn lemma_dec_int_reads_back(n: int)
    ensures
        n < 0 ==> dec_int(n)[0] == '-' && digits_value(dec_int(n).drop_first()) == -n,
        n >= 0 ==> digits_value(dec_int(n)) == n,
{
    if n < 0 {
        lemma_dec_nat_reads_back((-n) as nat);
        assert(dec_int(n).drop_first() == dec_nat((-n) as nat));
    } else {
        lemma_dec_nat_reads_back(n as nat);
    }
}

/// Different numbers have different decimal texts.
pub proof fn lemma_dec_nat_injective(m: nat, n: nat)
    requires
        dec_nat(m) == dec_nat(n),
    ensures
        m == n,
{
    lemma_dec_nat_reads_back(m);
    lemma_dec_nat_reads_back(n);
}

/// `items` joined by `", "`.
pub open spec fn joined(items: Seq<Seq<char>>) -> Seq<char>
    decreases items.len(),
{
    if items.len() == 0 {
        Seq::empty()
    } else if items.len() == 1 {
        items[0]
    } else {
        joined(items.drop_last()) + ", "@ + items.last()
    }
}

/// The text that `{:?}` gives for a character: the character in single
/// quotes, escaped as the standard library's `Debug` for `char` escapes it.
pub uninterp spec fn char_debug_text(c: char) -> Seq<char>;

/// `format!("{:?}", c)`. What it returns is left to the name `char_debug_text`.
#[verifier::external_body]
fn char_debug(c: char) -> (s: String)
    ensures
        s@ == char_debug_text(c),
{
    format!("{:?}", c)
}

pub open spec fn point_text(p: Point) -> Seq<char> {
    "Point { x: "@ + dec_int(p.x as int) + ", y: "@ + dec_int(p.y as int) + " }"@
}

pub open spec fn size_text(s: Size) -> Seq<char> {
    "Size { width: "@ + dec_nat(s.width as nat) + ", height: "@ + dec_nat(s.height as nat) + " }"@
}

pub open spec fn rectangle_text(r: Rectangle) -> Seq<char> {
    "Rectangle { top_left: "@ + point_text(r.top_left) + ", size: "@ + size_text(r.size) + " }"@
}

pub open spec fn glyph_text(g: BdfGlyph) -> Seq<char> {
    "BdfGlyph { character: "@ + char_debug_text(g.character) + ", bounding_box: "@
        + rectangle_text(g.bounding_box) + ", device_width: "@ + dec_nat(g.device_width as nat)
        + ", start_index: "@ + dec_nat(g.start_index as nat) + " }"@
}

/// The text of a glyph list, as `{:?}` gives it for a slice of glyphs.
pub open spec fn glyph_list_text(gs: Seq<BdfGlyph>) -> Seq<char> {
    "["@ + joined(gs.map_values(|g: BdfGlyph| glyph_text(g))) + "]"@
}

/// The text of a byte list, as `{:?}` gives it for a slice of bytes.
pub open spec fn byte_list_text(bs: Seq<u8>) -> Seq<char> {
    "["@ + joined(bs.map_values(|b: u8| dec_nat(b as nat))) + "]"@
}

/// Appends the decimal text of `n`.
pub fn push_decimal(s: &mut String, n: u64)
    ensures
        final(s)@ == old(s)@ + dec_nat(n as nat),
    decreases n,
{
    if n >= 10 {
        push_decimal(s, n / 10);
    }
    let d: u8 = (n % 10) as u8;
    push_char(s, (48u8 + d) as char);
    assert(old(s)@ + dec_nat(n as nat) =~= s@);
}

/// Appends the decimal text of `n`, with a minus sign when negative.
pub fn push_int(s: &mut String, n: i32)
    ensures
        final(s)@ == old(s)@ + dec_int(n as int),
{
    if n < 0 {
        push_char(s, '-');
        push_decimal(s, (-(n as i64)) as u64);
        assert(old(s)@ + dec_int(n as int) =~= s@);
    } else {
        push_decimal(s, n as u64);
    }
}

/// Appends the text of a point.
pub fn push_point(s: &mut String, p: Point)
    ensures
        final(s)@ == old(s)@ + point_text(p),
{
    s.append("Point { x: ");
    push_int(s, p.x);
    s.append(", y: ");
    push_int(s, p.y);
    s.append(" }");
    assert(old(s)@ + point_text(p) =~= s@);
}

/// Appends the text of a size.
pub fn push_size(s: &mut String, z: Size)
    ensures
        final(s)@ == old(s)@ + size_text(z),
{
    s.append("Size { width: ");
    push_decimal(s, z.width as u64);
    s.append(", height: ");
    push_decimal(s, z.height as u64);
    s.append(" }");
    assert(old(s)@ + size_text(z) =~= s@);
}

/// Appends the text of a rectangle.
pub fn push_rectangle(s: &mut String, r: Rectangle)
    ensures
        final(s)@ == old(s)@ + rectangle_text(r),
{
    s.append("Rectangle { top_left: ");
    push_point(s, r.top_left);
    s.append(", size: ");
    push_size(s, r.size);
    s.append(" }");
    assert(old(s)@ + rectangle_text(r) =~= s@);
}

/// Appends the text of a glyph record.
pub fn push_glyph(s: &mut String, g: &BdfGlyph)
    ensures
        final(s)@ == old(s)@ + glyph_text(*g),
{
    s.append("BdfGlyph { character: ");
    let c = char_debug(g.character);
    s.append(c.as_str());
    s.append(", bounding_box: ");
    push_rectangle(s, g.bounding_box);
    s.append(", device_width: ");
    push_decimal(s, g.device_width as u64);
    s.append(", start_index: ");
    push_decimal(s, g.start_index as u64);
    s.append(" }");
    assert(old(s)@ + glyph_text(*g) =~= s@);
}

/// Joining one more item.
proof fn lemma_joined_push(items: Seq<Seq<char>>, i: int)
    requires
        0 <= i < items.len(),
    ensures
        joined(items.take(i + 1)) == if i == 0 {
            items[0]
        } else {
            joined(items.take(i)) + ", "@ + items[i]
        },
{
    assert(items.take(i + 1).drop_last() == items.take(i));
    if i == 0 {
        assert(items.take(1).len() == 1);
    }
}

/// Appends the text of a glyph list.
pub fn push_glyph_list(s: &mut String, gs: &[BdfGlyph])
    ensures
        final(s)@ == old(s)@ + glyph_list_text(gs@),
{
    let ghost items = gs@.map_values(|g: BdfGlyph| glyph_text(g));
    s.append("[");
    let ghost base = s@;
    let mut i: usize = 0;
    while i < gs.len()
        invariant
            i <= gs@.len(),
            items == gs@.map_values(|g: BdfGlyph| glyph_text(g)),
            s@ == base + joined(items.take(i as int)),
        decreases gs@.len() - i,
    {
        proof { lemma_joined_push(items, i as int); }
        if i > 0 {
            s.append(", ");
        }
        push_glyph(s, &gs[i]);
        assert(s@ =~= base + joined(items.take(i as int + 1)));
        i = i + 1;
    }
    s.append("]");
    assert(items.take(gs@.len() as int) == items);
    assert(old(s)@ + glyph_list_text(gs@) =~= s@);
}

/// Appends the text of a byte list.
pub fn push_byte_list(s: &mut String, bs: &[u8])
    ensures
        final(s)@ == old(s)@ + byte_list_text(bs@),
{
    let ghost items = bs@.map_values(|b: u8| dec_nat(b as nat));
    s.append("[");
    let ghost base = s@;
    let mut i: usize = 0;
    while i < bs.len()
        invariant
            i <= bs@.len(),
            items == bs@.map_values(|b: u8| dec_nat(b as nat)),
            s@ == base + joined(items.take(i as int)),
        decreases bs@.len() - i,
    {
        proof { lemma_joined_push(items, i as int); }
        if i > 0 {
            s.append(", ");
        }
        push_decimal(s, bs[i] as u64);
        assert(s@ =~= base + joined(items.take(i as int + 1)));
        i = i + 1;
    }
    s.append("]");
    assert(items.take(bs@.len() as int) == items);
    assert(old(s)@ + byte_list_text(bs@) =~= s@);
}

/// `c` with ASCII lower-case letters turned upper-case.
pub open spec fn ascii_upper(c: char) -> char {
    if 97 <= c as u32 <= 122 {
        ((c as u32 - 32) as u8) as char
    } else {
        c
    }
}

/// The text that one character of a file stem contributes to the constant
/// name: its upper-case form, with `O` spelled `_ITALIC` and `B` spelled
/// `_BOLD`.
pub open spec fn name_part(c: char) -> Seq<char> {
    let u = ascii_upper(c);
    if u == 'O' {
        "_ITALIC"@
    } else if u == 'B' {
        "_BOLD"@
    } else {
        seq![u]
    }
}

/// The name parts of all characters of `stem`.
pub open spec fn name_parts(stem: Seq<char>) -> Seq<char>
    decreases stem.len(),
{
    if stem.len() == 0 {
        Seq::empty()
    } else {
        name_parts(stem.drop_last()) + name_part(stem.last())
    }
}

/// The name of the font constant declared for a BDF file with stem `stem`.
pub open spec fn constant_name_text(stem: Seq<char>) -> Seq<char> {
    "FONT_"@ + name_parts(stem)
}

/// The name of the font constant for a file stem: `FONT_` and the stem in
/// upper case, with every `O` replaced by `_ITALIC` and then every `B` by
/// `_BOLD`.
pub fn constant_name(file_stem: &str) -> (s: String)
    ensures
        s@ == constant_name_text(file_stem@),
{
    let mut s = String::new();
    s.append("FONT_");
    let ghost base = s@;
    for c in it: file_stem.chars()
        invariant
            it.seq() == file_stem@,
            s@ == base + name_parts(file_stem@.take(it.index() as int)),
    {
        let ghost k = it.index() as int;
        assert(file_stem@.take(k + 1).drop_last() == file_stem@.take(k));
        let code = c as u32;
        let u: char = if 97 <= code && code <= 122 { ((code - 32) as u8) as char } else { c };
        assert(u == ascii_upper(c));
        if u == 'O' {
            s.append("_ITALIC");
        } else if u == 'B' {
            s.append("_BOLD");
        } else {
            push_char(&mut s, u);
        }
        assert(s@ =~= base + name_parts(file_stem@.take(k + 1)));
    }
    assert(file_stem@.take(file_stem@.len() as int) == file_stem@);
    s
}

} // verus!
