use genco::{Element, Tokens};

#[derive(Debug, Clone, PartialEq, Eq)]
struct Lang(u32);

#[test]
fn test_join() {
    let s = String::from("foo");
    let mut toks: Tokens<()> = Tokens::new();

    // locally borrowed string
    toks.append(Element::literal(s.as_str()));
    // static string
    toks.append(Element::literal("bar"));
    // owned literal
    toks.append(Element::Literal(String::from("nope")));

    let toks = toks.join_spacing();

    assert_eq!("foo bar nope", toks.to_string().unwrap().as_str());
}

fn toks_of(elements: Vec<Element<Lang>>) -> Tokens<Lang> {
    let mut t = Tokens::new();
    for e in elements {
        t.append(e);
    }
    t
}

#[test]
fn test_walk_custom() {
    let mut toks: Tokens<Lang> = Tokens::new();

    toks.push(toks_of(vec![
        Element::literal("1:1"),
        Element::custom(Lang(1)),
        Element::literal("1:2"),
    ]));

    // static string
    toks.append(Element::literal("bar"));

    let inner = toks_of(vec![Element::literal("3:1"), Element::literal("3:2")]);
    toks.nested(toks_of(vec![
        Element::literal("2:1"),
        Element::literal("2:2"),
        Element::Append(inner),
        Element::custom(Lang(2)),
    ]));

    // owned literal
    toks.append(Element::Literal(String::from("nope")));

    let output: Vec<Lang> = toks.walk_custom().iter().map(|c| (**c).clone()).collect();

    let expected = vec![Lang(1), Lang(2)];

    assert_eq!(expected, output);
}
