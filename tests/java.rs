use genco::java::{
    boolean, byte, character, double, float, imported, integer, long, short, void, Java,
};
use genco::{Element, Tokens};

#[test]
fn test_primitive() {
    assert!(short().is_primitive());
    assert!(integer().is_primitive());
    assert!(long().is_primitive());
    assert!(float().is_primitive());
    assert!(double().is_primitive());
    assert!(boolean().is_primitive());
    assert!(character().is_primitive());
    assert!(byte().is_primitive());
    assert!(!void().is_primitive());
}

#[test]
fn mod_test_string() {
    let mut toks: Tokens<Java> = Tokens::new();
    toks.append(Element::quoted("hello \n world"));
    assert_eq!("\"hello \\n world\"", toks.to_string().unwrap().as_str());
}

#[test]
fn mod_test_imported() {
    let integer = imported("java.lang", "Integer");
    let a = imported("java.io", "A");
    let b = imported("java.io", "B");
    let ob = imported("java.util", "B");
    let ob_a = ob.with_arguments(vec![a.clone()]);

    let mut toks: Tokens<Java> = Tokens::new();
    for item in vec![integer, a, b, ob, ob_a] {
        toks.append(Element::custom(item));
    }
    let toks = toks.join_spacing();

    assert_eq!(
        Ok("import java.io.A;\nimport java.io.B;\n\nInteger A B java.util.B java.util.B<A>\n",),
        toks.to_file().as_ref().map(|s| s.as_str())
    );
}
