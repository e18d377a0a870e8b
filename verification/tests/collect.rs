use embedded_fonts::range::range_input;
use embedded_fonts::visitor::{file_chars, literal_text, text_of, CollectError, ExprShape, PathPair, TextNewVisitor};

fn path(segs: &[(&str, Option<&str>)]) -> ExprShape {
    ExprShape::Path(
        segs.iter()
            .map(|(i, p)| PathPair { ident: i.to_string(), punct: p.map(|p| p.to_string()) })
            .collect(),
    )
}

#[test]
fn expr_path_joins_segments() {
    let e = path(&[("Text", Some("::")), ("new", None)]);
    assert_eq!(TextNewVisitor::get_expr_path(&e), Some(String::from("Text::new")));
    assert_eq!(TextNewVisitor::get_expr_path(&ExprShape::Other), None);
    assert_eq!(TextNewVisitor::get_expr_lit(&ExprShape::Lit(String::from("\"ab\""))), Some(String::from("\"ab\"")));
    assert_eq!(TextNewVisitor::get_expr_lit(&e), None);
}

#[test]
fn visitor_collects_text_new_literals() {
    let mut v = TextNewVisitor::new();
    let text_new = path(&[("Text", Some("::")), ("new", None)]);
    let other = path(&[("Point", Some("::")), ("new", None)]);
    v.visit_expr_call(&text_new, &vec![ExprShape::Lit(String::from("\"ab\"")), ExprShape::Other]);
    v.visit_expr_call(&other, &vec![ExprShape::Other]);
    v.visit_expr_call(&text_new, &vec![ExprShape::Lit(String::from("\"bc\""))]);
    assert_eq!(v.chars, vec![String::from("ab"), String::from("bc")]);
    assert_eq!(v.get_allchars(), "abc");
}

#[test]
fn range_input_sorts_and_dedups() {
    let files = vec![String::from("ba\r\n\nc")];
    let sources = vec![String::from("zb")];
    let ranges = vec![String::from("中a"), String::from("")];
    assert_eq!(range_input(&files, &sources, &ranges), Some(String::from("abcz中")));
    assert_eq!(range_input(&vec![String::from("\r\n")], &vec![], &vec![]), None);
    assert_eq!(range_input(&vec![], &vec![], &vec![]), None);
}

#[test]
fn literal_text_undoes_quotes_and_escapes() {
    assert_eq!(literal_text("\"ab\""), "ab");
    assert_eq!(literal_text("\"a\\u{4e2d}\\n\\\"\\x41\""), "a中\n\"A");
    assert_eq!(literal_text("r#\"x\"y\"#"), "x\"y");
    assert_eq!(literal_text("\"\""), "");
    assert_eq!(literal_text("5"), "5");
    assert_eq!(literal_text("'c'"), "'c'");
    assert_eq!(text_of("\"q\"", Some(String::from("q"))), "q");
    assert_eq!(text_of("7", None), "7");
}

#[test]
fn visitor_collects_escaped_literal_values() {
    let mut v = TextNewVisitor::new();
    let text_new = path(&[("Text", Some("::")), ("new", None)]);
    v.visit_expr_call(&text_new, &vec![ExprShape::Lit(String::from("\"中国\\tz\""))]);
    assert_eq!(v.chars, vec![String::from("中国\tz")]);
    assert_eq!(v.get_allchars(), "中国\tz");
}

#[test]
fn file_chars_collects_text_new_values_in_visit_order() {
    let src = "fn main() { f(Text::new(\"ab\", p, s)); let t = Text::new(\"b\\u{4e2d}\", Point::new(1, 2), st); g(Text::new(\"x\", h(Text::new(\"zy\", q, r)), w)); }";
    assert_eq!(file_chars(src), Ok(String::from("ab中xzy")));
    assert_eq!(file_chars("fn main() { other(\"ab\"); }"), Ok(String::new()));
    assert_eq!(file_chars("fn main( {"), Err(CollectError::Parse));
    assert_eq!(file_chars("fn main() { Text::new(name, p, s); }"), Err(CollectError::NotLiteral));
    assert_eq!(file_chars("fn main() { Text::new(); }"), Err(CollectError::NotLiteral));
}
