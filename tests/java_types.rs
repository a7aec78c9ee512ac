use genco::java::{self, imported, local, optional, Extra, Java};
use genco::{Element, Tokens};

fn render(item: Java) -> String {
    let mut toks: Tokens<Java> = Tokens::new();
    toks.append(Element::custom(item));
    toks.to_string().unwrap()
}

#[test]
fn path_extends_class_and_drops_arguments() {
    let map = imported("java.util", "Map").with_arguments(vec![java::integer()]);
    let entry = map.path("Entry");
    assert!(!entry.is_generic());
    assert_eq!("java.util.Map.Entry", render(entry));
    assert_eq!("foo", render(local("foo").path("Entry")));
}

#[test]
fn raw_and_boxed() {
    let list = imported("java.util", "List").with_arguments(vec![local("T")]);
    assert!(list.is_generic());
    assert!(!list.as_raw().is_generic());
    assert_eq!("java.util.List", render(list.as_raw()));
    let boxed = java::integer().as_boxed();
    assert_eq!("Integer", boxed.name());
    assert_eq!(Some(String::from("java.lang")), boxed.package());
    assert_eq!("Integer", render(boxed));
}

#[test]
fn equality_ignores_path() {
    let a = imported("p", "A");
    assert!(a.equals(&a.path("Inner")));
    assert!(!a.equals(&imported("q", "A")));
    assert!(!a.equals(&a.with_arguments(vec![java::long()])));
    assert!(java::long().equals(&java::long()));
    assert!(!java::long().equals(&java::short()));
    assert!(!local("A").equals(&local("A")));
}

#[test]
fn optional_parts() {
    let opt = optional(java::integer(), imported("java.util", "Optional").with_arguments(vec![java::integer()]));
    assert!(opt.is_optional());
    assert!(!java::integer().is_optional());
    assert!(opt.as_optional().is_some());
    assert_eq!("int", render(opt.as_value()));
    assert_eq!("java.util.Optional<Integer>", render(opt.as_field()));
    assert_eq!("java.util.Optional<Integer>", render(opt.clone()));
    assert_eq!("int", opt.name());
    assert_eq!(Some(String::from("java.lang")), opt.package());
    assert_eq!(None, local("T").package());
    assert!(local("T").arguments().is_none());
    assert_eq!(1, opt.as_field().arguments().unwrap().len());
}

#[test]
fn quoting_escapes() {
    let mut toks: Tokens<Java> = Tokens::new();
    toks.append(Element::quoted("\t\u{0008}\r\u{000C}'\\x"));
    assert_eq!("\"\\t\\b\\r\\f\\'\\\\x\"", toks.to_string().unwrap());
}

#[test]
fn package_line_and_imports() {
    let mut extra = Extra::default();
    extra.package("com.example");
    let mut toks: Tokens<Java> = Tokens::new();
    toks.append(Element::custom(imported("com.example", "Local")));
    toks.append(Element::Spacing);
    toks.append(Element::custom(imported("java.util", "List")));
    toks.append(Element::Spacing);
    toks.append(Element::custom(imported("java.lang", "String")));
    assert_eq!(
        "package com.example;\n\nimport java.util.List;\n\nLocal List String\n",
        toks.to_file_with(extra).unwrap()
    );
}

#[test]
fn empty_java_file() {
    let toks: Tokens<Java> = Tokens::new();
    assert_eq!("", toks.to_file().unwrap());
}
