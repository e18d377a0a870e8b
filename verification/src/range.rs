//! The set of characters to export, gathered from the command line's range
//! options.

use vstd::prelude::*;

use crate::text::{chars_of, string_of};

verus! {

/// `s` without carriage returns and line feeds.
pub open spec fn without_line_breaks(s: Seq<char>) -> Seq<char>
    decreases s.len(),
{
    if s.len() == 0 {
        Seq::empty()
    } else {
        let r = without_line_breaks(s.drop_last());
        if s.last() == '\r' || s.last() == '\n' {
            r
        } else {
            r.push(s.last())
        }
    }
}

/// Removing line breaks keeps exactly the characters of `s` other than
/// carriage return and line feed: each such character of `s` stays, and no
/// other character appears.
pub proof fn lemma_without_line_breaks_contains(s: Seq<char>)
    ensures
        forall|c: char| #[trigger] without_line_breaks(s).contains(c) <==> (s.contains(c) && c != '\r' && c != '\n'),
    decreases s.len(),
{
    if s.len() > 0 {
        let r = without_line_breaks(s.drop_last());
        lemma_without_line_breaks_contains(s.drop_last());
        assert forall|c: char| #[trigger] without_line_breaks(s).contains(c) <==> (s.contains(c) && c != '\r' && c != '\n') by {
            if s.contains(c) && c != '\r' && c != '\n' {
                let j = choose|j: int| 0 <= j < s.len() && s[j] == c;
                if j < s.len() - 1 {
                    assert(s.drop_last()[j] == c);
                    assert(r.contains(c));
                    if s.last() != '\r' && s.last() != '\n' {
                        let m = choose|m: int| 0 <= m < r.len() && r[m] == c;
                        assert(r.push(s.last())[m] == c);
                    }
                } else {
                    assert(r.push(s.last())[r.len() as int] == c);
                }
            }
            if without_line_breaks(s).contains(c) {
                let m = choose|m: int| 0 <= m < without_line_breaks(s).len() && without_line_breaks(s)[m] == c;
                if s.last() != '\r' && s.last() != '\n' && m == r.len() {
                    assert(s[s.len() - 1] == c);
                } else {
                    if s.last() != '\r' && s.last() != '\n' {
                        assert(r[m] == c);
                    }
                    assert(r.contains(c));
                    let j = choose|j: int| 0 <= j < s.drop_last().len() && s.drop_last()[j] == c;
                    assert(s[j] == c);
                }
            }
        }
    }
}

/// All strings of `ss` one after the other.
pub open spec fn joined_all(ss: Seq<Seq<char>>) -> Seq<char>
    decreases ss.len(),
{
    if ss.len() == 0 {
        Seq::empty()
    } else {
        joined_all(ss.drop_last()) + ss.last()
    }
}

/// `s` is in strictly increasing order of code point.
pub open spec fn strictly_increasing(s: Seq<char>) -> bool {
    forall|i: int, j: int| 0 <= i < j < s.len() ==> (s[i] as int) < (s[j] as int)
}

/// The characters gathered from range files (their contents without line
/// breaks), from Rust sources and from range strings, in that order.
pub open spec fn gathered(files: Seq<String>, sources: Seq<String>, ranges: Seq<String>) -> Seq<char> {
    joined_all(files.map_values(|f: String| without_line_breaks(f@)))
        + joined_all(sources.map_values(|f: String| f@))
        + joined_all(ranges.map_values(|f: String| f@))
}

/// The characters of `contents` except carriage returns and line feeds.
pub fn strip_line_breaks(contents: &str) -> (v: Vec<char>)
    ensures
        v@ == without_line_breaks(contents@),
{
    let mut v: Vec<char> = Vec::new();
    for c in it: contents.chars()
        invariant
            it.seq() == contents@,
            v@ == without_line_breaks(contents@.take(it.index() as int)),
    {
        let ghost k = it.index() as int;
        assert(contents@.take(k + 1).drop_last() == contents@.take(k));
        if c != '\r' && c != '\n' {
            v.push(c);
        }
    }
    assert(contents@.take(contents@.len() as int) == contents@);
    v
}

/// Appends the characters of each string of `ss` to `store`, line breaks
/// removed when `strip` holds.
fn gather_into(store: &mut Vec<char>, ss: &Vec<String>, strip: bool)
    ensures
        strip ==> final(store)@ == old(store)@ + joined_all(ss@.map_values(|f: String| without_line_breaks(f@))),
        !strip ==> final(store)@ == old(store)@ + joined_all(ss@.map_values(|f: String| f@)),
{
    let ghost items = if strip {
        ss@.map_values(|f: String| without_line_breaks(f@))
    } else {
        ss@.map_values(|f: String| f@)
    };
    let ghost base = store@;
    let mut i: usize = 0;
    while i < ss.len()
        invariant
            i <= ss@.len(),
            items == if strip {
                ss@.map_values(|f: String| without_line_breaks(f@))
            } else {
                ss@.map_values(|f: String| f@)
            },
            store@ == base + joined_all(items.take(i as int)),
        decreases ss@.len() - i,
    {
        let mut cs = if strip {
            strip_line_breaks(ss[i].as_str())
        } else {
            chars_of(ss[i].as_str())
        };
        assert(cs@ == items[i as int]);
        assert(items.take(i as int + 1).drop_last() == items.take(i as int));
        store.append(&mut cs);
        assert(store@ =~= base + joined_all(items.take(i as int + 1)));
        i = i + 1;
    }
    assert(items.take(ss@.len() as int) == items);
}

/// Inserts `c` into a strictly increasing `v` unless it is already there.
fn insert_sorted(v: &mut Vec<char>, c: char)
    requires
        strictly_increasing(old(v)@),
    ensures
        strictly_increasing(final(v)@),
        forall|d: char| final(v)@.contains(d) <==> (old(v)@.contains(d) || d == c),
{
    let mut i: usize = 0;
    while i < v.len() && v[i] < c
        invariant
            i <= v@.len(),
            v@ == old(v)@,
            strictly_increasing(v@),
            forall|j: int| 0 <= j < i ==> (v@[j] as int) < (c as int),
        decreases v@.len() - i,
    {
        i = i + 1;
    }
    if i < v.len() && v[i] == c {
        assert(v@[i as int] == c);
        return;
    }
    let ghost old_v = v@;
    assert(old_v == old(v)@);
    assert(i < old_v.len() ==> (c as int) < (old_v[i as int] as int));
    v.insert(i, c);
    assert forall|a: int, b: int| 0 <= a < b < v@.len() implies (v@[a] as int) < (v@[b] as int) by {
        if b < i {
            assert(v@[a] == old_v[a] && v@[b] == old_v[b]);
        } else if b == i {
            assert(v@[a] == old_v[a]);
        } else if a < i {
            assert(v@[a] == old_v[a] && v@[b] == old_v[b - 1]);
            assert((old_v[a] as int) < (old_v[i as int] as int) || a == i);
        } else if a == i {
            assert(v@[b] == old_v[b - 1]);
            assert(b - 1 == i || (old_v[i as int] as int) < (old_v[b - 1] as int));
        } else {
            assert(v@[a] == old_v[a - 1] && v@[b] == old_v[b - 1]);
        }
    }
    assert forall|d: char| v@.contains(d) <==> (old_v.contains(d) || d == c) by {
        if v@.contains(d) {
            let j = choose|j: int| 0 <= j < v@.len() && v@[j] == d;
            if j < i {
                assert(old_v[j] == d);
            } else if j > i {
                assert(old_v[j - 1] == d);
            }
        }
        if old_v.contains(d) {
            let j = choose|j: int| 0 <= j < old_v.len() && old_v[j] == d;
            if j < i {
                assert(v@[j] == d);
            } else {
                assert(v@[j + 1] == d);
            }
        }
        if d == c {
            assert(v@[i as int] == d);
        }
    }
    assert(forall|d: char| final(v)@.contains(d) <==> (old(v)@.contains(d) || d == c));
}

/// The characters of `store` in increasing order of code point, each once.
pub fn sorted_distinct(store: &Vec<char>) -> (v: Vec<char>)
    ensures
        strictly_increasing(v@),
        forall|d: char| v@.contains(d) <==> store@.contains(d),
{
    let mut v: Vec<char> = Vec::new();
    let mut i: usize = 0;
    while i < store.len()
        invariant
            i <= store@.len(),
            strictly_increasing(v@),
            forall|d: char| v@.contains(d) <==> store@.take(i as int).contains(d),
        decreases store@.len() - i,
    {
        let ghost before = v@;
        insert_sorted(&mut v, store[i]);
        assert forall|d: char| v@.contains(d) <==> store@.take(i as int + 1).contains(d) by {
            let t = store@.take(i as int + 1);
            if t.contains(d) {
                let j = choose|j: int| 0 <= j < t.len() && t[j] == d;
                if j < i {
                    assert(store@.take(i as int)[j] == d);
                }
            }
            if store@.take(i as int).contains(d) {
                let j = choose|j: int| 0 <= j < i && store@.take(i as int)[j] == d;
                assert(t[j] == d);
            }
            if d == store@[i as int] {
                assert(t[i as int] == d);
            }
        }
        i = i + 1;
    }
    assert(store@.take(store@.len() as int) == store@);
    v
}

/// The characters to export: all characters of the range files (line breaks
/// removed), of the Rust sources and of the range strings, in increasing
/// order of code point and each once; `None` when there are none.
pub fn range_input(files: &Vec<String>, sources: &Vec<String>, ranges: &Vec<String>) -> (r: Option<String>)
    ensures
        gathered(files@, sources@, ranges@).len() == 0 ==> r is None,
        gathered(files@, sources@, ranges@).len() > 0 ==> (r matches Some(s) && strictly_increasing(s@)
            && forall|d: char| s@.contains(d) <==> gathered(files@, sources@, ranges@).contains(d)),
{
    let mut store: Vec<char> = Vec::new();
    gather_into(&mut store, files, true);
    gather_into(&mut store, sources, false);
    gather_into(&mut store, ranges, false);
    assert(store@ =~= gathered(files@, sources@, ranges@));
    if store.len() > 0 {
        let v = sorted_distinct(&store);
        Some(string_of(&v))
    } else {
        None
    }
}

} // verus!
