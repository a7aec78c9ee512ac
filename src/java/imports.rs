//! Import collation for Java files: the (package, name) pairs that the
//! classes of a body need, sorted and each once, and the import lines written
//! for them.
use vstd::prelude::*;

use crate::text::{
    lemma_lex_irreflexive, lemma_lex_total, lemma_lex_transitive, lex_lt, text_eq, text_lt,
};
use crate::tokens::{customs_of_nodes, Element, Node, Tokens};

use super::{
    java_lang, java_lang_string, lemma_type_decreases, lemma_views_index, lookup, lookup_from, pairs_of,
    texts_of, views_of, Extra, ExtraView, Java, JavaView,
};

verus! {

/// Import order: by package, then by name.
pub open spec fn pair_lt(a: (Seq<char>, Seq<char>), b: (Seq<char>, Seq<char>)) -> bool {
    lex_lt(a.0, b.0) || (a.0 == b.0 && lex_lt(a.1, b.1))
}

/// Put a pair into a sorted sequence, unless it is there already.
pub open spec fn insert_sorted(s: Seq<(Seq<char>, Seq<char>)>, x: (Seq<char>, Seq<char>)) -> Seq<
    (Seq<char>, Seq<char>),
>
    decreases s.len(),
{
    if s.len() == 0 {
        seq![x]
    } else if s[0] == x {
        s
    } else if pair_lt(x, s[0]) {
        seq![x] + s
    } else {
        seq![s[0]] + insert_sorted(s.drop_first(), x)
    }
}

/// Add the (package, name) pairs a type needs: those of its arguments, then
/// its own. Only classes need imports.
pub open spec fn type_imports(j: JavaView, acc: Seq<(Seq<char>, Seq<char>)>) -> Seq<
    (Seq<char>, Seq<char>),
>
    decreases j,
{
    match j {
        JavaView::Class { package, name, arguments, .. } => insert_sorted(
            arguments_imports(arguments, acc),
            (package, name),
        ),
        _ => acc,
    }
}

/// Add the pairs of each argument, in order.
pub open spec fn arguments_imports(
    args: Seq<JavaView>,
    acc: Seq<(Seq<char>, Seq<char>)>,
) -> Seq<(Seq<char>, Seq<char>)>
    decreases args,
{
    if args.len() == 0 {
        acc
    } else {
        type_imports(args.last(), arguments_imports(args.drop_last(), acc))
    }
}

/// Add the pairs of each item, in order.
pub open spec fn items_imports(items: Seq<Java>, acc: Seq<(Seq<char>, Seq<char>)>) -> Seq<
    (Seq<char>, Seq<char>),
>
    decreases items.len(),
{
    if items.len() == 0 {
        acc
    } else {
        type_imports(items.last()@, items_imports(items.drop_last(), acc))
    }
}

/// The sorted pairs that the items of a body need.
pub open spec fn collected_imports(body: Seq<Node<Java>>) -> Seq<(Seq<char>, Seq<char>)> {
    items_imports(customs_of_nodes(body), Seq::empty())
}

/// Whether an import is left out: its name is imported already, it is in
/// `java.lang`, or it is in the file's own package.
pub open spec fn skips_import(p: (Seq<char>, Seq<char>), extra: ExtraView) -> bool {
    lookup(extra.imported, p.1) is Some || p.0 == java_lang() || extra.package == Some(p.0)
}

/// `import package.name;` on a line of its own.
pub open spec fn import_line(package: Seq<char>, name: Seq<char>) -> Node<Java> {
    Node::Push(
        seq![
            Node::Literal("import "@),
            Node::Literal(package),
            Node::Literal("."@),
            Node::Literal(name),
            Node::Literal(";"@),
        ],
    )
}

/// The import lines for the pairs, in order, and the state that records them.
pub open spec fn import_lines(pairs: Seq<(Seq<char>, Seq<char>)>, extra: ExtraView) -> (
    Seq<Node<Java>>,
    ExtraView,
)
    decreases pairs.len(),
{
    if pairs.len() == 0 {
        (Seq::empty(), extra)
    } else {
        let (lines, e) = import_lines(pairs.drop_last(), extra);
        let p = pairs.last();
        if skips_import(p, e) {
            (lines, e)
        } else {
            (
                lines.push(import_line(p.0, p.1)),
                ExtraView { imported: e.imported.push((p.1, p.0)), ..e },
            )
        }
    }
}

fn pair_text_lt(package: &String, name: &String, other: &(String, String)) -> (r: bool)
    ensures
        r == pair_lt((package@, name@), (other.0@, other.1@)),
{
    text_lt(package.as_str(), other.0.as_str()) || (text_eq(package.as_str(), other.0.as_str())
        && text_lt(name.as_str(), other.1.as_str()))
}

proof fn lemma_insert_sorted_skip(
    s: Seq<(Seq<char>, Seq<char>)>,
    x: (Seq<char>, Seq<char>),
    i: int,
)
    requires
        0 <= i <= s.len(),
        forall|j: int| 0 <= j < i ==> #[trigger] s[j] != x && !pair_lt(x, s[j]),
    ensures
        insert_sorted(s, x) == s.take(i) + insert_sorted(s.skip(i), x),
    decreases i,
{
    if i == 0 {
        assert(s.skip(0) =~= s);
        assert(s.take(0) + s =~= s);
    } else {
        lemma_insert_sorted_skip(s, x, i - 1);
        let t = s.skip(i - 1);
        assert(t[0] == s[i - 1]);
        assert(t.drop_first() =~= s.skip(i));
        assert(s.take(i - 1) + (seq![s[i - 1]] + insert_sorted(s.skip(i), x)) =~= s.take(i)
            + insert_sorted(s.skip(i), x));
    }
}

/// Put a pair into a sorted vector, unless it is there already.
fn insert_pair(acc: &mut Vec<(String, String)>, package: &String, name: &String)
    ensures
        pairs_of(final(acc)@) == insert_sorted(pairs_of(old(acc)@), (package@, name@)),
{
    let ghost s = pairs_of(acc@);
    let ghost x = (package@, name@);
    let n = acc.len();
    let mut i: usize = 0;
    while i < n
        invariant
            n == acc@.len(),
            i <= n,
            s == pairs_of(acc@),
            s == pairs_of(old(acc)@),
            x == (package@, name@),
            forall|j: int| 0 <= j < i ==> #[trigger] s[j] != x && !pair_lt(x, s[j]),
        decreases n - i,
    {
        assert(s[i as int] == (acc@[i as int].0@, acc@[i as int].1@));
        let same = text_eq(acc[i].0.as_str(), package.as_str()) && text_eq(
            acc[i].1.as_str(),
            name.as_str(),
        );
        if same {
            proof {
                lemma_insert_sorted_skip(s, x, i as int);
                assert(s.skip(i as int)[0] == s[i as int]);
                assert(s[i as int] == x);
                assert(s.take(i as int) + s.skip(i as int) =~= s);
            }
            return;
        }
        if pair_text_lt(package, name, &acc[i]) {
            proof {
                lemma_insert_sorted_skip(s, x, i as int);
                assert(s.skip(i as int)[0] == s[i as int]);
            }
            let ghost before = acc@;
            let entry = (package.clone(), name.clone());
            assert((entry.0@, entry.1@) == x);
            acc.insert(i, entry);
            proof {
                assert(acc@ == before.insert(i as int, entry));
                assert(pairs_of(acc@) =~= s.insert(i as int, x));
                assert(s.insert(i as int, x) =~= s.take(i as int) + (seq![x] + s.skip(i as int)));
            }
            return;
        }
        i = i + 1;
    }
    proof {
        lemma_insert_sorted_skip(s, x, n as int);
        assert(s.skip(n as int) =~= Seq::<(Seq<char>, Seq<char>)>::empty());
    }
    acc.push((package.clone(), name.clone()));
    assert(pairs_of(acc@) =~= s.take(n as int) + seq![x]);
}

impl Java {
    /// Add the (package, name) pairs this type needs to a sorted vector.
    fn type_imports(&self, acc: &mut Vec<(String, String)>)
        ensures
            pairs_of(final(acc)@) == type_imports(self@, pairs_of(old(acc)@)),
        decreases self,
    {
        match self {
            Java::Class(cls) => {
                proof {
                    lemma_type_decreases(*cls);
                    lemma_views_index(cls.arguments@);
                }
                let ghost args = views_of(cls.arguments@);
                let ghost start = pairs_of(acc@);
                assert(self@ == (JavaView::Class {
                    package: cls.package@,
                    name: cls.name@,
                    path: texts_of(cls.path@),
                    arguments: args,
                }));
                assert(decreases_to!(*self => cls.arguments@));
                let n = cls.arguments.len();
                let mut k: usize = 0;
                while k < n
                    invariant
                        n == cls.arguments@.len(),
                        k <= n,
                        args == views_of(cls.arguments@),
                        args.len() == n,
                        forall|j: int| 0 <= j < n ==> #[trigger] args[j] == cls.arguments@[j]@,
                        decreases_to!(*self => cls.arguments@),
                        pairs_of(acc@) == arguments_imports(args.take(k as int), start),
                    decreases n - k,
                {
                    proof { assert(decreases_to!(cls.arguments@ => cls.arguments@[k as int])); }
                    cls.arguments[k].type_imports(acc);
                    assert(args.take(k + 1).drop_last() =~= args.take(k as int));
                    k = k + 1;
                }
                assert(args.take(n as int) =~= args);
                insert_pair(acc, &cls.package, &cls.name);
            },
            _ => {},
        }
    }
}

/// The sorted pairs that the items of a body need.
fn collect_imports(body: &Tokens<Java>) -> (r: Vec<(String, String)>)
    ensures
        pairs_of(r@) == collected_imports(body@),
{
    let items = body.walk_custom();
    let ghost walked = crate::tokens::targets(items@);
    let mut acc: Vec<(String, String)> = Vec::new();
    assert(pairs_of(acc@) =~= Seq::empty());
    let n = items.len();
    let mut i: usize = 0;
    while i < n
        invariant
            n == items@.len(),
            i <= n,
            walked == crate::tokens::targets(items@),
            walked == customs_of_nodes(body@),
            pairs_of(acc@) == items_imports(walked.take(i as int), Seq::empty()),
        decreases n - i,
    {
        let item: &Java = &items[i];
        assert(walked[i as int] == *items@[i as int]);
        item.type_imports(&mut acc);
        assert(walked.take(i + 1).drop_last() =~= walked.take(i as int));
        i = i + 1;
    }
    assert(walked.take(n as int) =~= walked);
    acc
}

/// The import lines for sorted pairs, recording each import in `extra`.
fn import_tokens(pairs: &Vec<(String, String)>, extra: &mut Extra) -> (r: Tokens<Java>)
    ensures
        (r@, final(extra)@) == import_lines(pairs_of(pairs@), old(extra)@),
{
    let ghost ps = pairs_of(pairs@);
    let lang = java_lang_string();
    let mut out: Tokens<Java> = Tokens::new();
    let n = pairs.len();
    let mut i: usize = 0;
    while i < n
        invariant
            n == pairs@.len(),
            i <= n,
            ps == pairs_of(pairs@),
            lang@ == java_lang(),
            (out@, extra@) == import_lines(ps.take(i as int), old(extra)@),
        decreases n - i,
    {
        let package = &pairs[i].0;
        let name = &pairs[i].1;
        assert(ps[i as int] == (package@, name@));
        assert(ps.take(i + 1).drop_last() =~= ps.take(i as int));
        let known = extra.imported_from(name.as_str()).is_some();
        let in_file_package = match &extra.package {
            Some(p) => text_eq(p.as_str(), package.as_str()),
            None => false,
        };
        if !known && !text_eq(package.as_str(), lang.as_str()) && !in_file_package {
            let mut line: Tokens<Java> = Tokens::new();
            line.append(Element::literal("import "));
            line.append(Element::Literal(package.clone()));
            line.append(Element::literal("."));
            line.append(Element::Literal(name.clone()));
            line.append(Element::literal(";"));
            assert(line@ =~= seq![
                Node::<Java>::Literal("import "@),
                Node::Literal(package@),
                Node::Literal("."@),
                Node::Literal(name@),
                Node::Literal(";"@),
            ]);
            out.push(line);
            extra.record(name, package);
        }
        i = i + 1;
    }
    assert(ps.take(n as int) =~= ps);
    out
}

impl Java {
    /// The import block a body needs, if any class in it needs an import;
    /// the imports written are recorded in `extra`.
    pub(crate) fn imports(tokens: &Tokens<Java>, extra: &mut Extra) -> (r: Option<Tokens<Java>>)
        ensures
            collected_imports(tokens@).len() == 0 ==> r is None && final(extra)@ == old(extra)@,
            collected_imports(tokens@).len() > 0 ==> (r matches Some(t) && (t@, final(extra)@)
                == import_lines(collected_imports(tokens@), old(extra)@)),
    {
        let pairs = collect_imports(tokens);
        if pairs.len() == 0 {
            return None;
        }
        Some(import_tokens(&pairs, extra))
    }
}

/// Strictly increasing in import order: sorted, with no pair twice.
pub open spec fn sorted_pairs(s: Seq<(Seq<char>, Seq<char>)>) -> bool {
    forall|i: int, j: int| 0 <= i < j < s.len() ==> pair_lt(#[trigger] s[i], #[trigger] s[j])
}

/// Whether a type needs the import of a (package, name) pair.
pub open spec fn has_pair(j: JavaView, v: (Seq<char>, Seq<char>)) -> bool
    decreases j,
{
    match j {
        JavaView::Class { package, name, arguments, .. } => v == (package, name) || args_have_pair(
            arguments,
            v,
        ),
        _ => false,
    }
}

/// Whether one of the arguments needs the pair.
pub open spec fn args_have_pair(args: Seq<JavaView>, v: (Seq<char>, Seq<char>)) -> bool
    decreases args,
{
    if args.len() == 0 {
        false
    } else {
        args_have_pair(args.drop_last(), v) || has_pair(args.last(), v)
    }
}

/// Whether one of the items needs the pair.
pub open spec fn items_have_pair(items: Seq<Java>, v: (Seq<char>, Seq<char>)) -> bool
    decreases items.len(),
{
    if items.len() == 0 {
        false
    } else {
        items_have_pair(items.drop_last(), v) || has_pair(items.last()@, v)
    }
}

proof fn lemma_pair_irreflexive(a: (Seq<char>, Seq<char>))
    ensures
        !pair_lt(a, a),
{
    lemma_lex_irreflexive(a.0, 0);
    lemma_lex_irreflexive(a.1, 0);
}

proof fn lemma_pair_transitive(
    a: (Seq<char>, Seq<char>),
    b: (Seq<char>, Seq<char>),
    c: (Seq<char>, Seq<char>),
)
    requires
        pair_lt(a, b),
        pair_lt(b, c),
    ensures
        pair_lt(a, c),
{
    if lex_lt(a.0, b.0) && lex_lt(b.0, c.0) {
        lemma_lex_transitive(a.0, b.0, c.0, 0);
    } else if a.0 == b.0 && b.0 == c.0 {
        lemma_lex_transitive(a.1, b.1, c.1, 0);
    }
}

proof fn lemma_pair_total(a: (Seq<char>, Seq<char>), b: (Seq<char>, Seq<char>))
    requires
        a != b,
    ensures
        pair_lt(a, b) || pair_lt(b, a),
{
    if a.0 != b.0 {
        assert(a.0.skip(0) =~= a.0);
        assert(b.0.skip(0) =~= b.0);
        lemma_lex_total(a.0, b.0, 0);
    } else {
        assert(a.1.skip(0) =~= a.1);
        assert(b.1.skip(0) =~= b.1);
        lemma_lex_total(a.1, b.1, 0);
    }
}

proof fn lemma_sorted_drop_first(s: Seq<(Seq<char>, Seq<char>)>)
    requires
        sorted_pairs(s),
        s.len() > 0,
    ensures
        sorted_pairs(s.drop_first()),
        forall|v: (Seq<char>, Seq<char>)| #[trigger]
            s.drop_first().contains(v) <==> (s.contains(v) && v != s[0]),
{
    let t = s.drop_first();
    assert forall|i: int, j: int| 0 <= i < j < t.len() implies pair_lt(#[trigger] t[i], #[trigger] t[j]) by {
        assert(t[i] == s[i + 1] && t[j] == s[j + 1]);
    }
    assert forall|v: (Seq<char>, Seq<char>)| #[trigger] t.contains(v) <==> (s.contains(v) && v != s[0]) by {
        if t.contains(v) {
            let k = choose|k: int| 0 <= k < t.len() && t[k] == v;
            assert(s[k + 1] == v);
            assert(pair_lt(s[0], s[k + 1]));
            lemma_pair_irreflexive(s[0]);
        }
        if s.contains(v) && v != s[0] {
            let k = choose|k: int| 0 <= k < s.len() && s[k] == v;
            assert(t[k - 1] == v);
        }
    }
}

proof fn lemma_insert_sorted(s: Seq<(Seq<char>, Seq<char>)>, x: (Seq<char>, Seq<char>))
    requires
        sorted_pairs(s),
    ensures
        sorted_pairs(insert_sorted(s, x)),
        forall|v: (Seq<char>, Seq<char>)| #[trigger]
            insert_sorted(s, x).contains(v) <==> (s.contains(v) || v == x),
    decreases s.len(),
{
    let r = insert_sorted(s, x);
    if s.len() == 0 {
        assert(r =~= seq![x]);
        assert forall|v: (Seq<char>, Seq<char>)| #[trigger] r.contains(v) <==> (s.contains(v) || v == x) by {
            if v == x {
                assert(r[0] == x);
            }
        }
    } else if s[0] == x {
        assert forall|v: (Seq<char>, Seq<char>)| #[trigger] r.contains(v) <==> (s.contains(v) || v == x) by {
            if v == x {
                assert(s[0] == x);
            }
        }
    } else if pair_lt(x, s[0]) {
        assert(r == seq![x] + s);
        assert forall|i: int, j: int| 0 <= i < j < r.len() implies pair_lt(#[trigger] r[i], #[trigger] r[j]) by {
            assert(r[j] == s[j - 1]);
            if i == 0 {
                if j > 1 {
                    lemma_pair_transitive(x, s[0], s[j - 1]);
                }
            } else {
                assert(r[i] == s[i - 1]);
            }
        }
        assert forall|v: (Seq<char>, Seq<char>)| #[trigger] r.contains(v) <==> (s.contains(v) || v == x) by {
            if r.contains(v) {
                let k = choose|k: int| 0 <= k < r.len() && r[k] == v;
                if k > 0 {
                    assert(s[k - 1] == v);
                }
            }
            if s.contains(v) {
                let k = choose|k: int| 0 <= k < s.len() && s[k] == v;
                assert(r[k + 1] == v);
            }
            if v == x {
                assert(r[0] == x);
            }
        }
    } else {
        lemma_pair_total(x, s[0]);
        let t = s.drop_first();
        lemma_sorted_drop_first(s);
        lemma_insert_sorted(t, x);
        let rest = insert_sorted(t, x);
        assert(r == seq![s[0]] + rest);
        assert forall|k: int| 0 <= k < rest.len() implies pair_lt(s[0], #[trigger] rest[k]) by {
            assert(rest.contains(rest[k]));
            if rest[k] != x {
                assert(t.contains(rest[k]));
                let m = choose|m: int| 0 <= m < t.len() && t[m] == rest[k];
                assert(s[m + 1] == rest[k]);
            }
        }
        assert forall|i: int, j: int| 0 <= i < j < r.len() implies pair_lt(#[trigger] r[i], #[trigger] r[j]) by {
            assert(r[j] == rest[j - 1]);
            if i > 0 {
                assert(r[i] == rest[i - 1]);
            }
        }
        assert forall|v: (Seq<char>, Seq<char>)| #[trigger] r.contains(v) <==> (s.contains(v) || v == x) by {
            if r.contains(v) {
                let k = choose|k: int| 0 <= k < r.len() && r[k] == v;
                if k > 0 {
                    assert(rest[k - 1] == v);
                    assert(rest.contains(v));
                } else {
                    assert(s[0] == v);
                }
            }
            if s.contains(v) && v != s[0] {
                assert(t.contains(v));
                assert(rest.contains(v));
                let k = choose|k: int| 0 <= k < rest.len() && rest[k] == v;
                assert(r[k + 1] == v);
            }
            if s.contains(v) && v == s[0] {
                assert(r[0] == v);
            }
            if v == x {
                assert(rest.contains(x));
                let k = choose|k: int| 0 <= k < rest.len() && rest[k] == x;
                assert(r[k + 1] == x);
            }
        }
    }
}

proof fn lemma_type_imports(j: JavaView, acc: Seq<(Seq<char>, Seq<char>)>)
    requires
        sorted_pairs(acc),
    ensures
        sorted_pairs(type_imports(j, acc)),
        forall|v: (Seq<char>, Seq<char>)| #[trigger]
            type_imports(j, acc).contains(v) <==> (acc.contains(v) || has_pair(j, v)),
    decreases j,
{
    match j {
        JavaView::Class { package, name, arguments, .. } => {
            lemma_arguments_imports(arguments, acc);
            lemma_insert_sorted(arguments_imports(arguments, acc), (package, name));
        },
        _ => {},
    }
}

proof fn lemma_arguments_imports(args: Seq<JavaView>, acc: Seq<(Seq<char>, Seq<char>)>)
    requires
        sorted_pairs(acc),
    ensures
        sorted_pairs(arguments_imports(args, acc)),
        forall|v: (Seq<char>, Seq<char>)| #[trigger]
            arguments_imports(args, acc).contains(v) <==> (acc.contains(v) || args_have_pair(
                args,
                v,
            )),
    decreases args,
{
    if args.len() > 0 {
        lemma_arguments_imports(args.drop_last(), acc);
        lemma_type_imports(args.last(), arguments_imports(args.drop_last(), acc));
    }
}

proof fn lemma_items_imports(items: Seq<Java>, acc: Seq<(Seq<char>, Seq<char>)>)
    requires
        sorted_pairs(acc),
    ensures
        sorted_pairs(items_imports(items, acc)),
        forall|v: (Seq<char>, Seq<char>)| #[trigger]
            items_imports(items, acc).contains(v) <==> (acc.contains(v) || items_have_pair(
                items,
                v,
            )),
    decreases items.len(),
{
    if items.len() > 0 {
        lemma_items_imports(items.drop_last(), acc);
        lemma_type_imports(items.last()@, items_imports(items.drop_last(), acc));
    }
}

proof fn lemma_sorted_unique(s: Seq<(Seq<char>, Seq<char>)>, t: Seq<(Seq<char>, Seq<char>)>)
    requires
        sorted_pairs(s),
        sorted_pairs(t),
        forall|v: (Seq<char>, Seq<char>)| #[trigger] s.contains(v) <==> t.contains(v),
    ensures
        s == t,
    decreases s.len(),
{
    if s.len() == 0 {
        if t.len() > 0 {
            assert(t.contains(t[0]));
            assert(s.contains(t[0]));
        }
        assert(s =~= t);
    } else {
        assert(s.contains(s[0]));
        if t.len() == 0 {
            assert(false);
        }
        assert(t.contains(s[0]));
        assert(t.contains(t[0]));
        assert(s.contains(t[0]));
        let j = choose|j: int| 0 <= j < t.len() && t[j] == s[0];
        let i = choose|i: int| 0 <= i < s.len() && s[i] == t[0];
        if s[0] != t[0] {
            assert(j > 0 && i > 0);
            assert(pair_lt(t[0], t[j]));
            assert(pair_lt(s[0], s[i]));
            lemma_pair_transitive(t[0], s[0], t[0]);
            lemma_pair_irreflexive(t[0]);
        }
        lemma_sorted_drop_first(s);
        lemma_sorted_drop_first(t);
        lemma_sorted_unique(s.drop_first(), t.drop_first());
        assert(s =~= seq![s[0]] + s.drop_first());
        assert(t =~= seq![t[0]] + t.drop_first());
    }
}

/// The pairs a body imports are sorted by package and then name, each comes
/// once, and they are exactly the pairs of the classes in the body (generic
/// arguments included).
pub proof fn lemma_imports_sorted_and_complete(body: Seq<Node<Java>>)
    ensures
        sorted_pairs(collected_imports(body)),
        forall|v: (Seq<char>, Seq<char>)| #[trigger]
            collected_imports(body).contains(v) <==> items_have_pair(customs_of_nodes(body), v),
{
    lemma_items_imports(customs_of_nodes(body), Seq::empty());
}

/// Import collation does not depend on where, in what order or how often
/// the classes occur: bodies that need the same pairs get the same import
/// block.
pub proof fn lemma_imports_order_independent(
    a: Seq<Node<Java>>,
    b: Seq<Node<Java>>,
    extra: ExtraView,
)
    requires
        forall|v: (Seq<char>, Seq<char>)|
            items_have_pair(customs_of_nodes(a), v) <==> items_have_pair(customs_of_nodes(b), v),
    ensures
        collected_imports(a) == collected_imports(b),
        import_lines(collected_imports(a), extra) == import_lines(collected_imports(b), extra),
{
    lemma_imports_sorted_and_complete(a);
    lemma_imports_sorted_and_complete(b);
    lemma_sorted_unique(collected_imports(a), collected_imports(b));
}

/// The name that an import line imports.
pub open spec fn line_name(line: Node<Java>) -> Seq<char> {
    match line {
        Node::Push(parts) => if parts.len() == 5 {
            match parts[3] {
                Node::Literal(name) => name,
                _ => Seq::empty(),
            }
        } else {
            Seq::empty()
        },
        _ => Seq::empty(),
    }
}

proof fn lemma_lookup_push_keeps(
    s: Seq<(Seq<char>, Seq<char>)>,
    x: (Seq<char>, Seq<char>),
    name: Seq<char>,
    i: int,
)
    requires
        0 <= i,
        lookup_from(s, name, i) is Some,
    ensures
        lookup_from(s.push(x), name, i) is Some,
    decreases s.len() - i,
{
    if i < s.len() && s[i].0 != name {
        lemma_lookup_push_keeps(s, x, name, i + 1);
    }
}

proof fn lemma_lookup_push_new(s: Seq<(Seq<char>, Seq<char>)>, x: (Seq<char>, Seq<char>), i: int)
    requires
        0 <= i <= s.len(),
        lookup_from(s, x.0, i) is None,
    ensures
        lookup_from(s.push(x), x.0, i) is Some,
    decreases s.len() - i,
{
    if i < s.len() {
        lemma_lookup_push_new(s, x, i + 1);
    }
}

proof fn lemma_import_lines_recorded(pairs: Seq<(Seq<char>, Seq<char>)>, extra: ExtraView)
    ensures
        ({
            let (lines, e) = import_lines(pairs, extra);
            &&& e.package == extra.package
            &&& forall|k: int| 0 <= k < lines.len() ==> lookup(e.imported, #[trigger] line_name(lines[k])) is Some
            &&& forall|k: int, l: int|
                0 <= k < l < lines.len() ==> line_name(#[trigger] lines[k]) != line_name(#[trigger] lines[l])
        }),
    decreases pairs.len(),
{
    if pairs.len() > 0 {
        lemma_import_lines_recorded(pairs.drop_last(), extra);
        let (lines, e) = import_lines(pairs.drop_last(), extra);
        let p = pairs.last();
        if !skips_import(p, e) {
            let line = import_line(p.0, p.1);
            let lines2 = lines.push(line);
            let imported2 = e.imported.push((p.1, p.0));
            assert(line_name(line) == p.1);
            assert forall|k: int| 0 <= k < lines2.len() implies lookup(imported2, #[trigger] line_name(lines2[k])) is Some by {
                if k < lines.len() {
                    assert(lines2[k] == lines[k]);
                    lemma_lookup_push_keeps(e.imported, (p.1, p.0), line_name(lines[k]), 0);
                } else {
                    lemma_lookup_push_new(e.imported, (p.1, p.0), 0);
                }
            }
            assert forall|k: int, l: int| 0 <= k < l < lines2.len() implies line_name(#[trigger] lines2[k]) != line_name(#[trigger] lines2[l]) by {
                assert(lines2[k] == lines[k]);
                if l < lines.len() {
                    assert(lines2[l] == lines[l]);
                } else {
                    assert(lookup(e.imported, line_name(lines[k])) is Some);
                }
            }
        }
    }
}

/// No import line is written twice: two lines of an import block always
/// import different names, so however often a class occurs, it is imported
/// at most once.
pub proof fn lemma_import_lines_distinct(pairs: Seq<(Seq<char>, Seq<char>)>, extra: ExtraView)
    ensures
        ({
            let lines = import_lines(pairs, extra).0;
            forall|k: int, l: int| 0 <= k < l < lines.len() ==> #[trigger] lines[k] != #[trigger] lines[l]
        }),
{
    lemma_import_lines_recorded(pairs, extra);
}

} // verus!
