//! Collection of the characters that `Text::new` calls in Rust sources
//! display: the first argument of every call of `Text::new`, found by
//! parsing the source with syn and visiting its calls.

use quote::ToTokens;
use vstd::prelude::*;

use crate::convert::{distinct, distinct_chars};
use crate::text::{chars_of, string_of};

verus! {

/// One segment of a path expression: the identifier's text and the text of
/// the punctuation that follows it, if any.
pub struct PathPair {
    pub ident: String,
    pub punct: Option<String>,
}

/// The shapes of expression that the visitor tells apart.
pub enum ExprShape {
    /// A path such as `Text::new`, by its segments.
    Path(Vec<PathPair>),
    /// A literal, by its source text as written (quotes and escapes included).
    Lit(String),
    /// Any other expression.
    Other,
}

/// The value of a `PathPair`: the identifier's text and the punctuation's.
pub type PathPairModel = (Seq<char>, Option<Seq<char>>);

/// The value of an `ExprShape`.
pub enum ExprShapeModel {
    Path(Seq<PathPairModel>),
    Lit(Seq<char>),
    Other,
}

impl View for PathPair {
    type V = PathPairModel;

    open spec fn view(&self) -> PathPairModel {
        (self.ident@, match self.punct {
            Some(p) => Some(p@),
            None => None,
        })
    }
}

impl View for ExprShape {
    type V = ExprShapeModel;

    open spec fn view(&self) -> ExprShapeModel {
        match self {
            ExprShape::Path(pairs) => ExprShapeModel::Path(pairs@.map_values(|q: PathPair| q@)),
            ExprShape::Lit(s) => ExprShapeModel::Lit(s@),
            ExprShape::Other => ExprShapeModel::Other,
        }
    }
}

/// The text of a path: each identifier followed by its punctuation.
pub open spec fn path_text(pairs: Seq<PathPairModel>) -> Seq<char>
    decreases pairs.len(),
{
    if pairs.len() == 0 {
        Seq::empty()
    } else {
        let last = pairs.last();
        path_text(pairs.drop_last()) + last.0 + match last.1 {
            Some(p) => p,
            None => Seq::empty(),
        }
    }
}

/// The text of `e` when it is a path.
pub open spec fn expr_path_text(e: ExprShapeModel) -> Option<Seq<char>> {
    match e {
        ExprShapeModel::Path(pairs) => Some(path_text(pairs)),
        _ => None,
    }
}

/// `e` is the path `Text::new`.
pub open spec fn is_text_new(e: ExprShapeModel) -> bool {
    expr_path_text(e) == Some("Text::new"@)
}

/// The value of the Rust string literal written as `source` (quotes
/// removed, escapes undone), or `None` when `source` is not a string literal.
pub uninterp spec fn str_literal_value(source: Seq<char>) -> Option<Seq<char>>;

/// Parses `source` as a string literal with `syn::parse_str::<syn::LitStr>`
/// and returns its `LitStr::value`; `None` where syn rejects it. Which
/// sources are string literals and what their values are is left to the
/// name `str_literal_value`.
#[verifier::external_body]
fn parse_str_literal(source: &str) -> (r: Option<String>)
    ensures
        str_literal_value(source@) == match r {
            Some(v) => Some(v@),
            None => None::<Seq<char>>,
        },
{
    syn::parse_str::<syn::LitStr>(source).ok().map(|l| l.value())
}

/// The text that a literal written as `source` displays: the value of a
/// string literal, and any other literal as written.
pub open spec fn displayed_text(source: Seq<char>) -> Seq<char> {
    match str_literal_value(source) {
        Some(v) => v,
        None => source,
    }
}

/// The displayed text of a literal from its source and its string value,
/// if it has one: the value, else the source.
pub fn text_of(source: &str, value: Option<String>) -> (t: String)
    ensures
        t@ == match value {
            Some(v) => v@,
            None => source@,
        },
{
    match value {
        Some(v) => v,
        None => String::from_str(source),
    }
}

/// The text that the literal written as `source` displays: for a string
/// literal its value, with the quotes removed and the escapes undone; any
/// other literal as written.
pub fn literal_text(source: &str) -> (t: String)
    ensures
        t@ == displayed_text(source@),
{
    let value = parse_str_literal(source);
    text_of(source, value)
}

/// All strings of `ss` one after the other.
pub open spec fn concat_all(ss: Seq<String>) -> Seq<char>
    decreases ss.len(),
{
    if ss.len() == 0 {
        Seq::empty()
    } else {
        concat_all(ss.drop_last()) + ss.last()@
    }
}

/// Collects the first arguments of `Text::new` calls.
pub struct TextNewVisitor {
    pub chars: Vec<String>,
}

impl TextNewVisitor {
    /// A visitor that has collected nothing.
    pub fn new() -> (v: Self)
        ensures
            v.chars@.len() == 0,
    {
        Self { chars: Vec::new() }
    }

    /// All characters of the collected texts, each once, in order of first
    /// occurrence. A text may repeat characters; the result does not.
    pub fn get_allchars(&self) -> (s: String)
        ensures
            s@ == distinct(concat_all(self.chars@)),
    {
        let mut all: Vec<char> = Vec::new();
        let mut i: usize = 0;
        while i < self.chars.len()
            invariant
                i <= self.chars@.len(),
                all@ == concat_all(self.chars@.take(i as int)),
            decreases self.chars@.len() - i,
        {
            let mut cs = chars_of(self.chars[i].as_str());
            assert(self.chars@.take(i as int + 1).drop_last() == self.chars@.take(i as int));
            all.append(&mut cs);
            i = i + 1;
        }
        assert(self.chars@.take(self.chars@.len() as int) == self.chars@);
        let d = distinct_chars(&all);
        string_of(&d)
    }

    /// The text of `p` when it is a path: each identifier followed by its
    /// punctuation.
    pub fn get_expr_path(p: &ExprShape) -> (r: Option<String>)
        ensures
            match r {
                Some(s) => expr_path_text(p@) == Some(s@),
                None => expr_path_text(p@) is None,
            },
    {
        match p {
            ExprShape::Path(pairs) => {
                let ghost m = pairs@.map_values(|q: PathPair| q@);
                let mut result = String::new();
                let mut i: usize = 0;
                while i < pairs.len()
                    invariant
                        i <= pairs@.len(),
                        m == pairs@.map_values(|q: PathPair| q@),
                        result@ == path_text(m.take(i as int)),
                    decreases pairs@.len() - i,
                {
                    assert(m.take(i as int + 1).drop_last() == m.take(i as int));
                    assert(m[i as int] == pairs@[i as int]@);
                    result.append(pairs[i].ident.as_str());
                    if let Some(b) = &pairs[i].punct {
                        result.append(b.as_str());
                    }
                    assert(result@ =~= path_text(m.take(i as int + 1)));
                    i = i + 1;
                }
                assert(m.take(m.len() as int) == m);
                Some(result)
            },
            _ => None,
        }
    }

    /// The source text of `p` when it is a literal.
    pub fn get_expr_lit(p: &ExprShape) -> (r: Option<String>)
        ensures
            match *p {
                ExprShape::Lit(l) => r == Some(l),
                _ => r is None,
            },
    {
        match p {
            ExprShape::Lit(l) => Some(l.clone()),
            _ => None,
        }
    }

    /// Visits a call of `func` with arguments `args`: for a call of
    /// `Text::new`, collects the text that its first argument displays,
    /// which must be a literal.
    pub fn visit_expr_call(&mut self, func: &ExprShape, args: &Vec<ExprShape>)
        requires
            is_text_new(func@) ==> args@.len() > 0 && args@[0] is Lit,
        ensures
            is_text_new(func@) ==> {
                &&& final(self).chars@.len() == old(self).chars@.len() + 1
                &&& final(self).chars@.drop_last() == old(self).chars@
                &&& final(self).chars@.last()@ == displayed_text(args@[0]->Lit_0@)
            },
            !is_text_new(func@) ==> final(self).chars@ == old(self).chars@,
    {
        let name = String::from_str("Text::new");
        let matched = match Self::get_expr_path(func) {
            Some(p) => p == name,
            None => false,
        };
        if matched {
            let t = Self::get_expr_lit(&args[0]);
            if let Some(t) = t {
                let ghost before = self.chars@;
                self.chars.push(literal_text(t.as_str()));
                assert(self.chars@.drop_last() == before);
            }
        }
    }
}

#[verifier::external_type_specification]
#[verifier::external_body]
pub struct ExSynExpr(syn::Expr);

#[verifier::external_type_specification]
#[verifier::external_body]
pub struct ExSynExprCall(syn::ExprCall);

/// The values of a list of calls, each a callee and its arguments.
pub open spec fn calls_view(calls: Seq<(ExprShape, Vec<ExprShape>)>) -> Seq<(ExprShapeModel, Seq<ExprShapeModel>)> {
    calls.map_values(|c: (ExprShape, Vec<ExprShape>)| (c.0@, c.1@.map_values(|e: ExprShape| e@)))
}

/// The calls of a Rust source file, in the order in which syn's visitor
/// reaches them (an outer call before the calls inside it), each as its
/// callee and its arguments; `None` where syn rejects the file.
pub uninterp spec fn source_calls(contents: Seq<char>) -> Option<Seq<(ExprShapeModel, Seq<ExprShapeModel>)>>;

/// The shape of a syntax tree expression: a path by its segments' texts, a
/// literal by its token text, anything else as `Other`. Converts one value
/// of syn's type into the library's; nothing is stated of it.
#[verifier::external_body]
fn expr_of(p: &syn::Expr) -> ExprShape {
    match p {
        syn::Expr::Path(e) => ExprShape::Path(e.path.segments.pairs().map(|seg| {
            let (a, b) = seg.into_tuple();
            PathPair { ident: a.ident.to_string(), punct: b.map(|b| b.into_token_stream().to_string()) }
        }).collect()),
        syn::Expr::Lit(l) => ExprShape::Lit(l.lit.to_token_stream().to_string()),
        _ => ExprShape::Other,
    }
}

/// Gathers the calls of a syntax tree as syn's visitor reaches them.
pub struct CallCollector {
    calls: Vec<(ExprShape, Vec<ExprShape>)>,
}

impl<'ast> syn::visit::Visit<'ast> for CallCollector {
    /// Records the call's callee and arguments, then lets syn's visitor go
    /// on into the call, so that an outer call comes before the calls inside
    /// it. Nothing is stated of it; `parse_calls` states the result.
    #[verifier::external_body]
    fn visit_expr_call(&mut self, i: &'ast syn::ExprCall) {
        self.calls.push((expr_of(&i.func), i.args.iter().map(expr_of).collect()));
        syn::visit::visit_expr_call(self, i);
    }
}

/// Parses `contents` as a Rust file with `syn::parse_file` and walks the
/// syntax tree with `syn::visit::Visit::visit_file`, recording every call
/// as `CallCollector` does; `None` where syn rejects the file. Which calls a
/// file has is left to the name `source_calls`.
#[verifier::external_body]
fn parse_calls(contents: &str) -> (r: Option<Vec<(ExprShape, Vec<ExprShape>)>>)
    ensures
        source_calls(contents@) == match r {
            Some(v) => Some(calls_view(v@)),
            None => None::<Seq<(ExprShapeModel, Seq<ExprShapeModel>)>>,
        },
{
    let file = syn::parse_file(contents).ok()?;
    let mut collector = CallCollector { calls: Vec::new() };
    syn::visit::Visit::visit_file(&mut collector, &file);
    Some(collector.calls)
}

/// Why the characters of a source file could not be collected.
#[derive(Debug, Clone, Copy, PartialEq, Eq)]
pub enum CollectError {
    /// syn rejected the file.
    Parse,
    /// A call of `Text::new` has no literal first argument.
    NotLiteral,
}

/// Every call of `Text::new` among `calls` has a literal first argument.
pub open spec fn calls_literal_ok(calls: Seq<(ExprShapeModel, Seq<ExprShapeModel>)>) -> bool {
    forall|i: int| 0 <= i < calls.len() && is_text_new(#[trigger] calls[i].0) ==> calls[i].1.len() > 0 && calls[i].1[0] is Lit
}

/// The text a call contributes: for a call of `Text::new`, the text that
/// its first argument displays; nothing for any other call.
pub open spec fn call_text(call: (ExprShapeModel, Seq<ExprShapeModel>)) -> Seq<char> {
    if is_text_new(call.0) && call.1.len() > 0 {
        match call.1[0] {
            ExprShapeModel::Lit(source) => displayed_text(source),
            _ => Seq::empty(),
        }
    } else {
        Seq::empty()
    }
}

/// The texts of all calls of `calls`, one after the other.
pub open spec fn calls_text(calls: Seq<(ExprShapeModel, Seq<ExprShapeModel>)>) -> Seq<char>
    decreases calls.len(),
{
    if calls.len() == 0 {
        Seq::empty()
    } else {
        calls_text(calls.drop_last()) + call_text(calls.last())
    }
}

/// Whether `func` is the path `Text::new`.
pub fn is_text_new_call(func: &ExprShape) -> (b: bool)
    ensures
        b == is_text_new(func@),
{
    let name = String::from_str("Text::new");
    match TextNewVisitor::get_expr_path(func) {
        Some(p) => p == name,
        None => false,
    }
}

/// The characters that the `Text::new` calls of one Rust source file
/// display, each once, in order of first occurrence: the texts of the first
/// arguments of the calls, in the order in which syn's visitor reaches them.
/// An error when syn rejects the file or a call of `Text::new` has no
/// literal first argument.
pub fn file_chars(contents: &str) -> (r: Result<String, CollectError>)
    ensures
        match source_calls(contents@) {
            None => r == Err::<String, CollectError>(CollectError::Parse),
            Some(calls) => if !calls_literal_ok(calls) {
                r == Err::<String, CollectError>(CollectError::NotLiteral)
            } else {
                r matches Ok(s) && s@ == distinct(calls_text(calls))
            },
        },
{
    let calls = match parse_calls(contents) {
        Some(c) => c,
        None => return Err(CollectError::Parse),
    };
    let ghost m = calls_view(calls@);
    let mut vis = TextNewVisitor::new();
    let mut i: usize = 0;
    while i < calls.len()
        invariant
            i <= calls@.len(),
            m == calls_view(calls@),
            source_calls(contents@) == Some(m),
            m.len() == calls@.len(),
            calls_literal_ok(m.take(i as int)),
            concat_all(vis.chars@) == calls_text(m.take(i as int)),
        decreases calls@.len() - i,
    {
        let func = &calls[i].0;
        let args = &calls[i].1;
        assert(m[i as int] == (func@, args@.map_values(|e: ExprShape| e@)));
        assert(m.take(i as int + 1).drop_last() == m.take(i as int));
        assert(m.take(i as int + 1).last() == m[i as int]);
        let wanted = is_text_new_call(func);
        if wanted {
            let ok = args.len() > 0 && match &args[0] {
                ExprShape::Lit(_) => true,
                _ => false,
            };
            if !ok {
                if args.len() > 0 {
                    assert(m[i as int].1[0] == args@[0]@);
                }
                assert(is_text_new(m[i as int].0));
                assert(!calls_literal_ok(m));
                return Err(CollectError::NotLiteral);
            }
            assert(args@[0]@ == m[i as int].1[0]);
        }
        let ghost before = vis.chars@;
        vis.visit_expr_call(func, args);
        proof {
            if wanted {
                assert(vis.chars@.drop_last() == before);
                assert(concat_all(vis.chars@) == concat_all(before) + vis.chars@.last()@);
            }
            assert forall|j: int| 0 <= j < i + 1 && is_text_new(#[trigger] m.take(i as int + 1)[j].0) implies m.take(i as int + 1)[j].1.len() > 0 && m.take(i as int + 1)[j].1[0] is Lit by {
                if j < i {
                    assert(m.take(i as int + 1)[j] == m.take(i as int)[j]);
                }
            }
        }
        i = i + 1;
    }
    assert(m.take(m.len() as int) == m);
    Ok(vis.get_allchars())
}

} // verus!
