use genco::swift::Modifier::{Final, Public, Static};
use genco::swift::{array, imported, local, Modifier, Swift};
use genco::{Element, Tokens};

#[test]
fn test_string() {
    let mut toks: Tokens<Swift> = Tokens::new();
    toks.append(Element::quoted("hello \n world"));
    let res = toks.to_string();

    assert_eq!(Ok("\"hello \\n world\""), res.as_ref().map(|s| s.as_str()));
}

fn toks_of(item: &Swift) -> Tokens<Swift> {
    let mut t = Tokens::new();
    t.append(Element::custom(item.clone()));
    t
}

#[test]
fn test_imported() {
    let dbg = imported("Foo", "Debug");
    let mut toks: Tokens<Swift> = Tokens::new();
    toks.push(toks_of(&dbg));

    assert_eq!(
        Ok("import Foo\n\nDebug\n"),
        toks.to_file().as_ref().map(|s| s.as_str())
    );
}

#[test]
fn test_array() {
    let dbg = array(imported("Foo", "Debug"));
    let mut toks: Tokens<Swift> = Tokens::new();
    toks.push(toks_of(&dbg));

    assert_eq!(
        Ok("import Foo\n\n[Debug]\n"),
        toks.to_file().as_ref().map(|s| s.as_str())
    );
}

#[test]
fn test_map() {
    let dbg = genco::swift::map(local("String"), imported("Foo", "Debug"));
    let mut toks: Tokens<Swift> = Tokens::new();
    toks.push(toks_of(&dbg));

    assert_eq!(
        Ok("import Foo\n\n[String: Debug]\n"),
        toks.to_file().as_ref().map(|s| s.as_str())
    );
}

#[test]
fn modifier_test_vec() {
    let mut toks: Tokens<Swift> = Tokens::new();
    for m in [Public, Static, Final] {
        toks.append(m.element());
    }
    let el = toks.join_spacing();
    let s = el.to_string();
    let out = s.as_ref().map(|s| s.as_str());
    assert_eq!(Ok("public static final"), out);
}

#[test]
fn modifiers_sorted_and_deduplicated() {
    let toks: Tokens<Swift> = Modifier::into_tokens(&vec![Final, Public, Static, Public]);
    assert_eq!(3, toks.len());
    assert_eq!("public static final", toks.join_spacing().to_string().unwrap());
}

#[test]
fn swift_modules_imported_once_in_order() {
    let mut toks: Tokens<Swift> = Tokens::new();
    toks.append(Element::custom(imported("Zed", "Z")));
    toks.append(Element::custom(genco::swift::map(imported("Alpha", "A"), imported("Zed", "Y"))));
    let toks = toks.join_spacing();
    assert_eq!(
        "import Alpha\nimport Zed\n\nZ [A: Y]\n",
        toks.to_file().unwrap()
    );
}

#[test]
fn swift_local_file_has_no_import_block() {
    let mut toks: Tokens<Swift> = Tokens::new();
    toks.append(Element::custom(array(local("Int"))));
    assert_eq!("[Int]\n", toks.to_file().unwrap());
}

#[test]
fn swift_primitives_render_their_names() {
    let mut toks: Tokens<Swift> = Tokens::new();
    for p in [
        genco::swift::short(),
        genco::swift::integer(),
        genco::swift::long(),
        genco::swift::float(),
        genco::swift::double(),
        genco::swift::character(),
        genco::swift::boolean(),
        genco::swift::byte(),
        genco::swift::void(),
    ] {
        toks.append(Element::custom(p));
    }
    assert_eq!(
        "Int16 Int32 Int64 Float Double Character Bool Int8 Void",
        toks.join_spacing().to_string().unwrap()
    );
}
