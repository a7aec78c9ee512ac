use genco::{Element, Tokens};

fn lit(text: &str) -> Tokens<()> {
    let mut t = Tokens::new();
    t.append(Element::literal(text));
    t
}

#[test]
fn unless_empty_variants() {
    let mut toks: Tokens<()> = Tokens::new();
    toks.push_unless_empty(Tokens::new());
    toks.append_unless_empty(Tokens::new());
    assert!(toks.is_empty());
    toks.append_unless_empty(lit("a"));
    toks.push_unless_empty(lit("b"));
    assert_eq!(2, toks.len());
    assert_eq!("a\nb", toks.to_string().unwrap());
}

#[test]
fn extend_and_insert_keep_order() {
    let mut toks: Tokens<()> = Tokens::new();
    toks.extend(vec![Element::literal("a"), Element::literal("c")]);
    toks.insert(1, Element::literal("b"));
    assert_eq!("a b c", toks.join_spacing().to_string().unwrap());
}

#[test]
fn closure_builders() {
    let mut toks: Tokens<()> = Tokens::new();
    toks.push_into(|t| t.append(Element::literal("head {")));
    toks.nested_into(|t| {
        t.push(lit("one"));
        t.push(lit("two"));
    });
    toks.push_into(|t| t.append(Element::literal("}")));
    assert_eq!("head {\n  one\n  two\n}", toks.to_string().unwrap());
}

#[test]
fn failing_builder_adds_nothing() {
    let mut toks: Tokens<()> = Tokens::new();
    let r: Result<(), &str> = toks.try_push_into(|t| {
        t.append(Element::literal("partial"));
        Err("no")
    });
    assert_eq!(Err("no"), r);
    let r: Result<(), &str> = toks.try_nested_into(|_| Err("no"));
    assert_eq!(Err("no"), r);
    assert!(toks.is_empty());
    let r: Result<(), &str> = toks.try_nested_into(|t| {
        t.append(Element::literal("x"));
        Ok(())
    });
    assert_eq!(Ok(()), r);
    let r: Result<(), &str> = toks.try_push_into(|t| {
        t.append(Element::literal("y"));
        Ok(())
    });
    assert_eq!(Ok(()), r);
    assert_eq!("  x\ny", toks.to_string().unwrap());
}

#[test]
fn references_are_copied() {
    let shared = lit("s");
    let mut toks: Tokens<()> = Tokens::new();
    toks.push_ref(&shared);
    toks.nested_ref(&shared);
    toks.append_ref(&Element::literal("t"));
    assert_eq!("s\n  s\nt", toks.to_string().unwrap());
}

#[test]
fn registered_items_are_walked_not_rendered() {
    let mut toks: Tokens<u8> = Tokens::new();
    toks.register(7);
    toks.append(Element::custom(9));
    let found: Vec<u8> = toks.walk_custom().iter().map(|c| **c).collect();
    assert_eq!(vec![7, 9], found);
}

#[test]
fn custom_separator_is_shared() {
    let mut toks: Tokens<u8> = Tokens::new();
    toks.append(Element::literal("a"));
    toks.append(Element::literal("b"));
    toks.append(Element::literal("c"));
    let joined = toks.join(Element::custom(1));
    let found: Vec<u8> = joined.walk_custom().iter().map(|c| **c).collect();
    assert_eq!(vec![1, 1], found);
    assert_eq!(5, joined.len());
}

#[test]
fn line_spacing_join() {
    let mut toks: Tokens<()> = Tokens::new();
    toks.push(lit("a"));
    toks.push(lit("b"));
    assert_eq!("a\n\nb", toks.join_line_spacing().to_string().unwrap());
}

#[test]
fn leading_requests_dropped_but_indent_kept() {
    let mut toks: Tokens<()> = Tokens::new();
    toks.append(Element::LineSpacing);
    toks.nested(lit("a"));
    assert_eq!("  a", toks.to_string().unwrap());
}
