//! Swift: types, their rendering and module imports.
use vstd::prelude::*;

pub mod modifier;

pub use self::modifier::Modifier;

use crate::custom::{c_like_quoted, quote_c_like, Custom};
use crate::text::{
    lemma_lex_irreflexive, lemma_lex_total, lemma_lex_transitive, lex_lt, text_eq, text_lt,
};
use crate::tokens::{customs_of_nodes, interleave, without_empty, Element, Node, Tokens};

verus! {

/// A name, and the module it is imported from, if any.
#[derive(Debug, Hash, PartialOrd, Ord, PartialEq, Eq)]
pub struct Name {
    /// Module of the imported name.
    module: Option<String>,
    /// The name itself.
    name: String,
}

/// A Swift type as it appears in generated code.
#[derive(Debug, Hash, PartialOrd, Ord, PartialEq, Eq)]
pub enum Swift {
    /// A primitive type.
    Primitive {
        /// The primitive itself.
        primitive: &'static str,
    },
    /// A named type.
    Type {
        /// The name referenced.
        name: Name,
    },
    /// A dictionary, `[key: value]`.
    Dictionary {
        /// Key of the map.
        key: Box<Swift>,
        /// Value of the map.
        value: Box<Swift>,
    },
    /// An array, `[inner]`.
    Array {
        /// Inner value of the array.
        inner: Box<Swift>,
    },
}

/// The mathematical form of a Swift type.
pub enum SwiftView {
    Primitive { primitive: Seq<char> },
    Type { module: Option<Seq<char>>, name: Seq<char> },
    Dictionary { key: Box<SwiftView>, value: Box<SwiftView> },
    Array { inner: Box<SwiftView> },
}

/// The view of a type.
pub closed spec fn swift_view(j: Swift) -> SwiftView
    decreases j,
{
    match j {
        Swift::Primitive { primitive } => SwiftView::Primitive { primitive: primitive@ },
        Swift::Type { name } => SwiftView::Type {
            module: match name.module {
                Some(m) => Some(m@),
                None => None,
            },
            name: name.name@,
        },
        Swift::Dictionary { key, value } => SwiftView::Dictionary {
            key: Box::new(swift_view(*key)),
            value: Box::new(swift_view(*value)),
        },
        Swift::Array { inner } => SwiftView::Array { inner: Box::new(swift_view(*inner)) },
    }
}

impl View for Swift {
    type V = SwiftView;

    open spec fn view(&self) -> SwiftView {
        swift_view(*self)
    }
}

impl Swift {
    /// A copy of the type with the same view.
    pub fn copy(&self) -> (r: Swift)
        ensures
            r@ == self@,
        decreases self,
    {
        match self {
            Swift::Primitive { primitive } => Swift::Primitive { primitive },
            Swift::Type { name } => Swift::Type {
                name: Name {
                    module: match &name.module {
                        Some(m) => Some(m.clone()),
                        None => None,
                    },
                    name: name.name.clone(),
                },
            },
            Swift::Dictionary { key, value } => Swift::Dictionary {
                key: Box::new(key.copy()),
                value: Box::new(value.copy()),
            },
            Swift::Array { inner } => Swift::Array { inner: Box::new(inner.copy()) },
        }
    }
}

impl Clone for Swift {
    fn clone(&self) -> (r: Self)
        ensures
            r@ == self@,
    {
        self.copy()
    }
}

/// `Int16`.
pub fn short() -> (r: Swift)
    ensures
        r@ == (SwiftView::Primitive { primitive: "Int16"@ }),
{
    Swift::Primitive { primitive: "Int16" }
}

/// `Int32`.
pub fn integer() -> (r: Swift)
    ensures
        r@ == (SwiftView::Primitive { primitive: "Int32"@ }),
{
    Swift::Primitive { primitive: "Int32" }
}

/// `Int64`.
pub fn long() -> (r: Swift)
    ensures
        r@ == (SwiftView::Primitive { primitive: "Int64"@ }),
{
    Swift::Primitive { primitive: "Int64" }
}

/// `Float`.
pub fn float() -> (r: Swift)
    ensures
        r@ == (SwiftView::Primitive { primitive: "Float"@ }),
{
    Swift::Primitive { primitive: "Float" }
}

/// `Double`.
pub fn double() -> (r: Swift)
    ensures
        r@ == (SwiftView::Primitive { primitive: "Double"@ }),
{
    Swift::Primitive { primitive: "Double" }
}

/// `Character`.
pub fn character() -> (r: Swift)
    ensures
        r@ == (SwiftView::Primitive { primitive: "Character"@ }),
{
    Swift::Primitive { primitive: "Character" }
}

/// `Bool`.
pub fn boolean() -> (r: Swift)
    ensures
        r@ == (SwiftView::Primitive { primitive: "Bool"@ }),
{
    Swift::Primitive { primitive: "Bool" }
}

/// `Int8`.
pub fn byte() -> (r: Swift)
    ensures
        r@ == (SwiftView::Primitive { primitive: "Int8"@ }),
{
    Swift::Primitive { primitive: "Int8" }
}

/// `Void`.
pub fn void() -> (r: Swift)
    ensures
        r@ == (SwiftView::Primitive { primitive: "Void"@ }),
{
    Swift::Primitive { primitive: "Void" }
}

/// A type imported from a module.
pub fn imported(module: &str, name: &str) -> (r: Swift)
    ensures
        r@ == (SwiftView::Type { module: Some(module@), name: name@ }),
{
    Swift::Type { name: Name { module: Some(module.to_owned()), name: name.to_owned() } }
}

/// A local type.
pub fn local(name: &str) -> (r: Swift)
    ensures
        r@ == (SwiftView::Type { module: None, name: name@ }),
{
    Swift::Type { name: Name { module: None, name: name.to_owned() } }
}

/// A map from `key` to `value`.
pub fn map(key: Swift, value: Swift) -> (r: Swift)
    ensures
        r@ == (SwiftView::Dictionary { key: Box::new(key@), value: Box::new(value@) }),
{
    Swift::Dictionary { key: Box::new(key), value: Box::new(value) }
}

/// An array of `inner`.
pub fn array(inner: Swift) -> (r: Swift)
    ensures
        r@ == (SwiftView::Array { inner: Box::new(inner@) }),
{
    Swift::Array { inner: Box::new(inner) }
}

/// The text of a type.
pub open spec fn format_swift(j: SwiftView) -> Seq<char>
    decreases j,
{
    match j {
        SwiftView::Primitive { primitive } => primitive,
        SwiftView::Type { name, .. } => name,
        SwiftView::Dictionary { key, value } => seq!['['] + format_swift(*key) + seq![':', ' ']
            + format_swift(*value) + seq![']'],
        SwiftView::Array { inner } => seq!['['] + format_swift(*inner) + seq![']'],
    }
}

impl Swift {
    /// Write the text of the type at the end of `out`.
    pub fn format_into(&self, out: &mut String)
        ensures
            final(out)@ == old(out)@ + format_swift(self@),
        decreases self,
    {
        match self {
            Swift::Primitive { primitive } => out.append(primitive),
            Swift::Type { name } => out.append(name.name.as_str()),
            Swift::Dictionary { key, value } => {
                crate::custom::push_char(out, '[');
                key.format_into(out);
                crate::custom::push_char(out, ':');
                crate::custom::push_char(out, ' ');
                value.format_into(out);
                crate::custom::push_char(out, ']');
            },
            Swift::Array { inner } => {
                crate::custom::push_char(out, '[');
                inner.format_into(out);
                crate::custom::push_char(out, ']');
            },
        }
    }
}

/// Put a module into a sorted sequence, unless it is there already.
pub open spec fn insert_module(s: Seq<Seq<char>>, x: Seq<char>) -> Seq<Seq<char>>
    decreases s.len(),
{
    if s.len() == 0 {
        seq![x]
    } else if s[0] == x {
        s
    } else if lex_lt(x, s[0]) {
        seq![x] + s
    } else {
        seq![s[0]] + insert_module(s.drop_first(), x)
    }
}

/// Add the modules a type needs.
pub open spec fn type_modules(j: SwiftView, acc: Seq<Seq<char>>) -> Seq<Seq<char>>
    decreases j,
{
    match j {
        SwiftView::Type { module: Some(m), .. } => insert_module(acc, m),
        SwiftView::Dictionary { key, value } => type_modules(*value, type_modules(*key, acc)),
        SwiftView::Array { inner } => type_modules(*inner, acc),
        _ => acc,
    }
}

/// Add the modules of each item, in order.
pub open spec fn items_modules(items: Seq<Swift>, acc: Seq<Seq<char>>) -> Seq<Seq<char>>
    decreases items.len(),
{
    if items.len() == 0 {
        acc
    } else {
        type_modules(items.last()@, items_modules(items.drop_last(), acc))
    }
}

/// The sorted modules that the items of a body need.
pub open spec fn collected_modules(body: Seq<Node<Swift>>) -> Seq<Seq<char>> {
    items_modules(customs_of_nodes(body), Seq::empty())
}

/// `import module` on a line of its own.
pub open spec fn module_line(module: Seq<char>) -> Node<Swift> {
    Node::Push(seq![Node::Literal("import "@), Node::Literal(module)])
}

/// A Swift file: the import block, then the body, separated by a blank line.
pub open spec fn swift_file(body: Seq<Node<Swift>>) -> Seq<Node<Swift>> {
    let modules = collected_modules(body);
    let imports = if modules.len() == 0 {
        Seq::empty()
    } else {
        seq![Node::Push(module_lines(modules))]
    };
    interleave(without_empty(imports + seq![Node::Push(body)]), Node::LineSpacing)
}

proof fn lemma_insert_module_skip(s: Seq<Seq<char>>, x: Seq<char>, i: int)
    requires
        0 <= i <= s.len(),
        forall|j: int| 0 <= j < i ==> #[trigger] s[j] != x && !lex_lt(x, s[j]),
    ensures
        insert_module(s, x) == s.take(i) + insert_module(s.skip(i), x),
    decreases i,
{
    if i == 0 {
        assert(s.skip(0) =~= s);
        assert(s.take(0) + s =~= s);
    } else {
        lemma_insert_module_skip(s, x, i - 1);
        let t = s.skip(i - 1);
        assert(t[0] == s[i - 1]);
        assert(t.drop_first() =~= s.skip(i));
        assert(s.take(i - 1) + (seq![s[i - 1]] + insert_module(s.skip(i), x)) =~= s.take(i)
            + insert_module(s.skip(i), x));
    }
}

/// The texts of a sequence of strings.
pub open spec fn module_texts(s: Seq<String>) -> Seq<Seq<char>> {
    s.map_values(|x: String| x@)
}

fn add_module(acc: &mut Vec<String>, module: &String)
    ensures
        module_texts(final(acc)@) == insert_module(module_texts(old(acc)@), module@),
{
    let ghost s = module_texts(acc@);
    let ghost x = module@;
    let n = acc.len();
    let mut i: usize = 0;
    while i < n
        invariant
            n == acc@.len(),
            i <= n,
            s == module_texts(acc@),
            s == module_texts(old(acc)@),
            x == module@,
            forall|j: int| 0 <= j < i ==> #[trigger] s[j] != x && !lex_lt(x, s[j]),
        decreases n - i,
    {
        assert(s[i as int] == acc@[i as int]@);
        if text_eq(acc[i].as_str(), module.as_str()) {
            proof {
                lemma_insert_module_skip(s, x, i as int);
                assert(s.skip(i as int)[0] == s[i as int]);
                assert(s.take(i as int) + s.skip(i as int) =~= s);
            }
            return;
        }
        if text_lt(module.as_str(), acc[i].as_str()) {
            proof {
                lemma_insert_module_skip(s, x, i as int);
                assert(s.skip(i as int)[0] == s[i as int]);
            }
            let ghost before = acc@;
            let entry = module.clone();
            acc.insert(i, entry);
            proof {
                assert(module_texts(acc@) =~= s.insert(i as int, x));
                assert(s.insert(i as int, x) =~= s.take(i as int) + (seq![x] + s.skip(i as int)));
            }
            return;
        }
        i = i + 1;
    }
    proof {
        lemma_insert_module_skip(s, x, n as int);
        assert(s.skip(n as int) =~= Seq::<Seq<char>>::empty());
    }
    acc.push(module.clone());
    assert(module_texts(acc@) =~= s.take(n as int) + seq![x]);
}

impl Swift {
    /// Add the modules this type needs to a sorted vector.
    fn type_imports(&self, acc: &mut Vec<String>)
        ensures
            module_texts(final(acc)@) == type_modules(self@, module_texts(old(acc)@)),
        decreases self,
    {
        match self {
            Swift::Type { name } => {
                if let Some(m) = &name.module {
                    add_module(acc, m);
                }
            },
            Swift::Dictionary { key, value } => {
                key.type_imports(acc);
                value.type_imports(acc);
            },
            Swift::Array { inner } => inner.type_imports(acc),
            _ => {},
        }
    }
}

fn collect_modules(body: &Tokens<Swift>) -> (r: Vec<String>)
    ensures
        module_texts(r@) == collected_modules(body@),
{
    let items = body.walk_custom();
    let ghost walked = crate::tokens::targets(items@);
    let mut acc: Vec<String> = Vec::new();
    assert(module_texts(acc@) =~= Seq::empty());
    let n = items.len();
    let mut i: usize = 0;
    while i < n
        invariant
            n == items@.len(),
            i <= n,
            walked == crate::tokens::targets(items@),
            walked == customs_of_nodes(body@),
            module_texts(acc@) == items_modules(walked.take(i as int), Seq::empty()),
        decreases n - i,
    {
        let item: &Swift = &items[i];
        assert(walked[i as int] == *items@[i as int]);
        item.type_imports(&mut acc);
        assert(walked.take(i + 1).drop_last() =~= walked.take(i as int));
        i = i + 1;
    }
    assert(walked.take(n as int) =~= walked);
    acc
}

/// `import module` lines for sorted modules.
pub open spec fn module_lines(modules: Seq<Seq<char>>) -> Seq<Node<Swift>> {
    modules.map_values(|m: Seq<char>| module_line(m))
}

impl Swift {
    /// The import block a body needs, if any type in it comes from a module.
    fn imports(tokens: &Tokens<Swift>) -> (r: Option<Tokens<Swift>>)
        ensures
            collected_modules(tokens@).len() == 0 ==> r is None,
            collected_modules(tokens@).len() > 0 ==> (r matches Some(t) && t@ == module_lines(
                collected_modules(tokens@),
            )),
    {
        let modules = collect_modules(tokens);
        let ghost ms = module_texts(modules@);
        if modules.len() == 0 {
            return None;
        }
        let mut lines: Tokens<Swift> = Tokens::new();
        let mut i: usize = 0;
        while i < modules.len()
            invariant
                i <= modules@.len(),
                ms == module_texts(modules@),
                lines@ == module_lines(ms.take(i as int)),
            decreases modules@.len() - i,
        {
            let mut line: Tokens<Swift> = Tokens::new();
            line.append(Element::literal("import "));
            line.append(Element::Literal(modules[i].clone()));
            assert(line@ =~= seq![Node::<Swift>::Literal("import "@), Node::Literal(ms[i as int])]);
            lines.push(line);
            i = i + 1;
            assert(lines@ =~= module_lines(ms.take(i as int)));
        }
        assert(ms.take(ms.len() as int) =~= ms);
        Some(lines)
    }
}

impl Custom for Swift {
    type Extra = ();

    open spec fn spec_format(&self, level: nat, extra: ()) -> Seq<char> {
        format_swift(self@)
    }

    fn format(&self, level: usize, extra: &()) -> (r: String) {
        let mut out = String::new();
        self.format_into(&mut out);
        out
    }

    open spec fn spec_quote(input: Seq<char>) -> Seq<char> {
        c_like_quoted(input)
    }

    fn quote_string(input: &str) -> (r: String) {
        quote_c_like(input)
    }

    open spec fn spec_file(body: Seq<Node<Swift>>, extra: ()) -> (Seq<Node<Swift>>, ()) {
        (swift_file(body), extra)
    }

    fn write_file(body: Tokens<Swift>, extra: &mut ()) -> (r: Tokens<Swift>) {
        let ghost body_view = body@;
        let mut toks: Tokens<Swift> = Tokens::new();
        if let Some(imports) = Swift::imports(&body) {
            toks.push(imports);
        }
        toks.push(body);
        assert(toks@ =~= (if collected_modules(body_view).len() == 0 {
            Seq::empty()
        } else {
            seq![Node::Push(module_lines(collected_modules(body_view)))]
        }) + seq![Node::Push(body_view)]);
        toks.join_line_spacing()
    }

    open spec fn spec_default_extra() -> () {
        ()
    }

    fn default_extra() -> (r: ()) {
    }
}

/// Strictly increasing in the order of characters: sorted, no module twice.
pub open spec fn sorted_modules(s: Seq<Seq<char>>) -> bool {
    forall|i: int, j: int| 0 <= i < j < s.len() ==> lex_lt(#[trigger] s[i], #[trigger] s[j])
}

/// Whether a type needs the import of a module.
pub open spec fn has_module(j: SwiftView, m: Seq<char>) -> bool
    decreases j,
{
    match j {
        SwiftView::Type { module: Some(x), .. } => x == m,
        SwiftView::Dictionary { key, value } => has_module(*key, m) || has_module(*value, m),
        SwiftView::Array { inner } => has_module(*inner, m),
        _ => false,
    }
}

/// Whether one of the items needs the module.
pub open spec fn items_have_module(items: Seq<Swift>, m: Seq<char>) -> bool
    decreases items.len(),
{
    if items.len() == 0 {
        false
    } else {
        items_have_module(items.drop_last(), m) || has_module(items.last()@, m)
    }
}

proof fn lemma_text_total(a: Seq<char>, b: Seq<char>)
    requires
        a != b,
    ensures
        lex_lt(a, b) || lex_lt(b, a),
{
    assert(a.skip(0) =~= a);
    assert(b.skip(0) =~= b);
    lemma_lex_total(a, b, 0);
}

proof fn lemma_sorted_modules_drop_first(s: Seq<Seq<char>>)
    requires
        sorted_modules(s),
        s.len() > 0,
    ensures
        sorted_modules(s.drop_first()),
        forall|v: Seq<char>| #[trigger] s.drop_first().contains(v) <==> (s.contains(v) && v != s[0]),
{
    let t = s.drop_first();
    assert forall|i: int, j: int| 0 <= i < j < t.len() implies lex_lt(#[trigger] t[i], #[trigger] t[j]) by {
        assert(t[i] == s[i + 1] && t[j] == s[j + 1]);
    }
    assert forall|v: Seq<char>| #[trigger] t.contains(v) <==> (s.contains(v) && v != s[0]) by {
        if t.contains(v) {
            let k = choose|k: int| 0 <= k < t.len() && t[k] == v;
            assert(s[k + 1] == v);
            assert(lex_lt(s[0], s[k + 1]));
            lemma_lex_irreflexive(s[0], 0);
        }
        if s.contains(v) && v != s[0] {
            let k = choose|k: int| 0 <= k < s.len() && s[k] == v;
            assert(t[k - 1] == v);
        }
    }
}

proof fn lemma_insert_module(s: Seq<Seq<char>>, x: Seq<char>)
    requires
        sorted_modules(s),
    ensures
        sorted_modules(insert_module(s, x)),
        forall|v: Seq<char>| #[trigger] insert_module(s, x).contains(v) <==> (s.contains(v) || v == x),
    decreases s.len(),
{
    let r = insert_module(s, x);
    if s.len() == 0 {
        assert(r =~= seq![x]);
        assert forall|v: Seq<char>| #[trigger] r.contains(v) <==> (s.contains(v) || v == x) by {
            if v == x {
                assert(r[0] == x);
            }
        }
    } else if s[0] == x {
        assert forall|v: Seq<char>| #[trigger] r.contains(v) <==> (s.contains(v) || v == x) by {
            if v == x {
                assert(s[0] == x);
            }
        }
    } else if lex_lt(x, s[0]) {
        assert(r == seq![x] + s);
        assert forall|i: int, j: int| 0 <= i < j < r.len() implies lex_lt(#[trigger] r[i], #[trigger] r[j]) by {
            assert(r[j] == s[j - 1]);
            if i == 0 {
                if j > 1 {
                    lemma_lex_transitive(x, s[0], s[j - 1], 0);
                }
            } else {
                assert(r[i] == s[i - 1]);
            }
        }
        assert forall|v: Seq<char>| #[trigger] r.contains(v) <==> (s.contains(v) || v == x) by {
            if r.contains(v) {
                let k = choose|k: int| 0 <= k < r.len() && r[k] == v;
                if k > 0 {
                    assert(s[k - 1] == v);
                }
            }
            if s.contains(v) {
                let k = choose|k: int| 0 <= k < s.len() && s[k] == v;
                assert(r[k + 1] == v);
            }
            if v == x {
                assert(r[0] == x);
            }
        }
    } else {
        lemma_text_total(x, s[0]);
        let t = s.drop_first();
        lemma_sorted_modules_drop_first(s);
        lemma_insert_module(t, x);
        let rest = insert_module(t, x);
        assert(r == seq![s[0]] + rest);
        assert forall|k: int| 0 <= k < rest.len() implies lex_lt(s[0], #[trigger] rest[k]) by {
            assert(rest.contains(rest[k]));
            if rest[k] != x {
                assert(t.contains(rest[k]));
                let m = choose|m: int| 0 <= m < t.len() && t[m] == rest[k];
                assert(s[m + 1] == rest[k]);
            }
        }
        assert forall|i: int, j: int| 0 <= i < j < r.len() implies lex_lt(#[trigger] r[i], #[trigger] r[j]) by {
            assert(r[j] == rest[j - 1]);
            if i > 0 {
                assert(r[i] == rest[i - 1]);
            }
        }
        assert forall|v: Seq<char>| #[trigger] r.contains(v) <==> (s.contains(v) || v == x) by {
            if r.contains(v) {
                let k = choose|k: int| 0 <= k < r.len() && r[k] == v;
                if k > 0 {
                    assert(rest[k - 1] == v);
                    assert(rest.contains(v));
                } else {
                    assert(s[0] == v);
                }
            }
            if s.contains(v) && v != s[0] {
                assert(t.contains(v));
                assert(rest.contains(v));
                let k = choose|k: int| 0 <= k < rest.len() && rest[k] == v;
                assert(r[k + 1] == v);
            }
            if s.contains(v) && v == s[0] {
                assert(r[0] == v);
            }
            if v == x {
                assert(rest.contains(x));
                let k = choose|k: int| 0 <= k < rest.len() && rest[k] == x;
                assert(r[k + 1] == x);
            }
        }
    }
}

proof fn lemma_type_modules(j: SwiftView, acc: Seq<Seq<char>>)
    requires
        sorted_modules(acc),
    ensures
        sorted_modules(type_modules(j, acc)),
        forall|v: Seq<char>| #[trigger]
            type_modules(j, acc).contains(v) <==> (acc.contains(v) || has_module(j, v)),
    decreases j,
{
    match j {
        SwiftView::Type { module: Some(m), .. } => lemma_insert_module(acc, m),
        SwiftView::Dictionary { key, value } => {
            lemma_type_modules(*key, acc);
            lemma_type_modules(*value, type_modules(*key, acc));
        },
        SwiftView::Array { inner } => lemma_type_modules(*inner, acc),
        _ => {},
    }
}

proof fn lemma_items_modules(items: Seq<Swift>, acc: Seq<Seq<char>>)
    requires
        sorted_modules(acc),
    ensures
        sorted_modules(items_modules(items, acc)),
        forall|v: Seq<char>| #[trigger]
            items_modules(items, acc).contains(v) <==> (acc.contains(v) || items_have_module(items, v)),
    decreases items.len(),
{
    if items.len() > 0 {
        lemma_items_modules(items.drop_last(), acc);
        lemma_type_modules(items.last()@, items_modules(items.drop_last(), acc));
    }
}

/// The modules a body imports are sorted, each comes once, and they are
/// exactly the modules of the types in the body (keys, values and array
/// elements included).
pub proof fn lemma_modules_sorted_and_complete(body: Seq<Node<Swift>>)
    ensures
        sorted_modules(collected_modules(body)),
        forall|v: Seq<char>| #[trigger]
            collected_modules(body).contains(v) <==> items_have_module(customs_of_nodes(body), v),
{
    lemma_items_modules(customs_of_nodes(body), Seq::empty());
}

} // verus!
