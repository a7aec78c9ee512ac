use genco::java::{self, imported, Extra, Java};
use genco::{Element, Tokens};

fn lit(text: &str) -> Tokens<()> {
    let mut t = Tokens::new();
    t.append(Element::literal(text));
    t
}

#[test]
fn push_then_spaced_join() {
    let mut toks: Tokens<()> = Tokens::new();
    toks.push(lit("foo"));
    let mut pair: Tokens<()> = Tokens::new();
    pair.append(Element::literal("bar"));
    pair.append(Element::literal("baz"));
    toks.push(pair.join_spacing());
    assert_eq!("foo\nbar baz", toks.to_string().unwrap());
}

#[test]
fn nested_block_between_pushes() {
    let mut toks: Tokens<()> = Tokens::new();
    toks.push(lit("x"));
    let mut inner: Tokens<()> = Tokens::new();
    inner.push(lit("a"));
    inner.push(lit("b"));
    toks.nested(inner);
    toks.push(lit("y"));
    assert_eq!("x\n  a\n  b\ny", toks.to_string().unwrap());
}

#[test]
fn quoted_newline_and_quote() {
    let mut toks: Tokens<Java> = Tokens::new();
    toks.append(Element::quoted("a\nb\"c"));
    assert_eq!("\"a\\nb\\\"c\"", toks.to_string().unwrap());
}

#[test]
fn same_class_registered_twice_imported_once() {
    let mut toks: Tokens<Java> = Tokens::new();
    toks.register(imported("java.io", "A"));
    toks.register(imported("java.io", "A"));
    toks.append(Element::custom(imported("java.io", "A")));
    assert_eq!("import java.io.A;\n\nA\n", toks.to_file().unwrap());
}

#[test]
fn class_in_file_package_not_imported() {
    let mut toks: Tokens<Java> = Tokens::new();
    toks.append(Element::custom(imported("java.io", "A")));
    let out = toks.to_file_with(Extra::new("java.io")).unwrap();
    assert_eq!("package java.io;\n\nA\n", out);
}

fn file_of(items: Vec<Java>) -> String {
    let mut toks: Tokens<Java> = Tokens::new();
    for item in items {
        toks.append(Element::custom(item));
    }
    toks.join_spacing().to_file().unwrap()
}

#[test]
fn imports_sorted_whatever_the_order() {
    let out = file_of(vec![imported("B", "Y"), imported("A", "X")]);
    assert_eq!("import A.X;\nimport B.Y;\n\nY X\n", out);
    let out = file_of(vec![imported("A", "X"), imported("B", "Y"), imported("A", "X")]);
    assert_eq!("import A.X;\nimport B.Y;\n\nX Y X\n", out);
}

#[test]
fn render_twice_same_output() {
    let build = || {
        let mut toks: Tokens<Java> = Tokens::new();
        toks.push(lit_java("class A {"));
        let mut body: Tokens<Java> = Tokens::new();
        body.append(Element::custom(imported("java.util", "List")));
        toks.nested(body);
        toks.push(lit_java("}"));
        toks
    };
    assert_eq!(build().to_file().unwrap(), build().to_file().unwrap());
    assert_eq!(build().to_string().unwrap(), build().to_string().unwrap());
}

fn lit_java(text: &str) -> Tokens<Java> {
    let mut t = Tokens::new();
    t.append(Element::literal(text));
    t
}

#[test]
fn append_empty_changes_nothing() {
    let mut toks: Tokens<()> = Tokens::new();
    toks.append(Element::Empty);
    assert!(toks.is_empty());
    toks.append(Element::literal("a"));
    toks.append(Element::Empty);
    assert_eq!(1, toks.len());
    assert_eq!("a", toks.to_string().unwrap());
}

#[test]
fn join_separator_counts() {
    let empty: Tokens<()> = Tokens::new();
    assert_eq!(0, empty.join(Element::literal(",")).len());
    let one = lit("a").join(Element::literal(","));
    assert_eq!(1, one.len());
    let mut three: Tokens<()> = Tokens::new();
    three.append(Element::literal("a"));
    three.insert(1, Element::Empty);
    three.append(Element::literal("b"));
    three.append(Element::literal("c"));
    let joined = three.join(Element::literal(","));
    assert_eq!(5, joined.len());
    assert_eq!("a,b,c", joined.to_string().unwrap());
}

#[test]
fn nested_unwinds_for_sibling_literal() {
    let mut toks: Tokens<()> = Tokens::new();
    toks.append(Element::literal("a"));
    let mut inner: Tokens<()> = Tokens::new();
    inner.append(Element::literal("b"));
    let mut deeper: Tokens<()> = Tokens::new();
    deeper.append(Element::literal("c"));
    inner.nested(deeper);
    toks.nested(inner);
    toks.append(Element::literal("d"));
    assert_eq!("a\n  b\n    c\nd", toks.to_string().unwrap());
}

#[test]
fn push_after_literal_starts_line() {
    let mut toks: Tokens<()> = Tokens::new();
    toks.append(Element::literal("a"));
    toks.push(lit("b"));
    toks.append(Element::literal("c"));
    assert_eq!("a\nbc", toks.to_string().unwrap());
}

#[test]
fn whitespace_requests_collapse_and_trail_off() {
    let mut toks: Tokens<()> = Tokens::new();
    toks.append(Element::Spacing);
    toks.append(Element::literal("a"));
    toks.append(Element::Spacing);
    toks.append(Element::Spacing);
    toks.append(Element::literal("b"));
    toks.append(Element::PushSpacing);
    toks.append(Element::Spacing);
    toks.append(Element::literal("c"));
    toks.append(Element::LineSpacing);
    toks.append(Element::PushSpacing);
    toks.append(Element::literal("d"));
    toks.append(Element::LineSpacing);
    assert_eq!("a b\nc\n\nd", toks.to_string().unwrap());
}

#[test]
fn nested_primitive_in_generic_is_boxed() {
    let list = imported("java.util", "List").with_arguments(vec![java::integer()]);
    let mut toks: Tokens<Java> = Tokens::new();
    toks.append(Element::custom(java::integer()));
    toks.append(Element::Spacing);
    toks.append(Element::custom(list));
    assert_eq!("int java.util.List<Integer>", toks.to_string().unwrap());
}
