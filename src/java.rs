//! Java: types, their rendering, string quoting and import collation.
use vstd::prelude::*;

pub mod imports;

use std::rc::Rc;

use crate::custom::{push_char, Custom};
use crate::formatter::deeper;
use crate::text::text_eq;
use crate::tokens::{interleave, without_empty, Element, Node, Tokens};

use self::imports::{collected_imports, import_lines};

verus! {

/// A class, with its package, nested path and generic arguments.
#[derive(Debug, Hash, PartialOrd, Ord, PartialEq, Eq)]
pub struct Type {
    /// Package of the class.
    package: String,
    /// Name of the class.
    name: String,
    /// Path of the class when nested.
    path: Vec<String>,
    /// Generic arguments of the class.
    arguments: Vec<Java>,
}

/// An optional type.
#[derive(Debug, Hash, PartialOrd, Ord, PartialEq, Eq)]
pub struct Optional {
    /// The type that is optional.
    pub value: Box<Java>,
    /// The complete field type, including its wrapper.
    pub field: Box<Java>,
}

/// A Java type as it appears in generated code.
#[derive(Debug, Hash, PartialOrd, Ord, PartialEq, Eq)]
pub enum Java {
    /// A primitive type and its boxed class.
    Primitive {
        /// The boxed class of the primitive.
        boxed: &'static str,
        /// The primitive itself.
        primitive: &'static str,
    },
    /// A class, with or without arguments, imported from a package.
    Class(Type),
    /// A local name with no qualification.
    Local {
        /// Name of the class.
        name: String,
    },
    /// An optional type.
    Optional(Optional),
}

/// The mathematical form of a Java type.
pub enum JavaView {
    Primitive { boxed: Seq<char>, primitive: Seq<char> },
    Class { package: Seq<char>, name: Seq<char>, path: Seq<Seq<char>>, arguments: Seq<JavaView> },
    Local { name: Seq<char> },
    Optional { value: Box<JavaView>, field: Box<JavaView> },
}

/// The view of each type of a sequence.
pub open spec fn views_of(s: Seq<Java>) -> Seq<JavaView>
    decreases s,
{
    if s.len() == 0 {
        Seq::empty()
    } else {
        views_of(s.drop_last()).push(view_of(s.last()))
    }
}

/// The texts of a sequence of strings.
pub open spec fn texts_of(s: Seq<String>) -> Seq<Seq<char>> {
    s.map_values(|x: String| x@)
}

/// The view of a type.
pub closed spec fn view_of(j: Java) -> JavaView
    decreases j,
{
    match j {
        Java::Primitive { boxed, primitive } => JavaView::Primitive { boxed: boxed@, primitive: primitive@ },
        Java::Class(cls) => {
            proof { lemma_type_decreases(cls); }
            JavaView::Class {
                package: cls.package@,
                name: cls.name@,
                path: texts_of(cls.path@),
                arguments: views_of(cls.arguments@),
            }
        },
        Java::Local { name } => JavaView::Local { name: name@ },
        Java::Optional(opt) => JavaView::Optional {
            value: Box::new(view_of(*opt.value)),
            field: Box::new(view_of(*opt.field)),
        },
    }
}

proof fn lemma_type_decreases(t: Type)
    ensures
        decreases_to!(t => t.arguments@),
{
    assert(decreases_to!(t => t.arguments));
    assert(decreases_to!(t.arguments => t.arguments@));
}

impl View for Java {
    type V = JavaView;

    open spec fn view(&self) -> JavaView {
        view_of(*self)
    }
}

/// Views line up with the types, one for one.
pub proof fn lemma_views_index(s: Seq<Java>)
    ensures
        views_of(s).len() == s.len(),
        forall|i: int| 0 <= i < s.len() ==> #[trigger] views_of(s)[i] == s[i]@,
    decreases s.len(),
{
    if s.len() > 0 {
        lemma_views_index(s.drop_last());
    }
}

/// The package of the built-in classes, which are never imported.
pub open spec fn java_lang() -> Seq<char> {
    seq!['j', 'a', 'v', 'a', '.', 'l', 'a', 'n', 'g']
}

fn java_lang_string() -> (r: String)
    ensures
        r@ == java_lang(),
{
    let r = String::from_str("java.lang");
    proof {
        reveal_strlit("java.lang");
        assert(r@ =~= java_lang());
    }
    r
}

fn copy_strings(v: &Vec<String>) -> (r: Vec<String>)
    ensures
        texts_of(r@) == texts_of(v@),
{
    let mut r: Vec<String> = Vec::new();
    let mut i: usize = 0;
    while i < v.len()
        invariant
            i <= v@.len(),
            r@.len() == i,
            forall|j: int| 0 <= j < i ==> #[trigger] r@[j]@ == v@[j]@,
        decreases v@.len() - i,
    {
        r.push(v[i].clone());
        i = i + 1;
    }
    assert(texts_of(r@) =~= texts_of(v@));
    r
}

impl Clone for Java {
    fn clone(&self) -> (r: Self)
        ensures
            r@ == self@,
    {
        self.copy()
    }
}

impl Java {
    /// A copy of the type with the same view.
    pub fn copy(&self) -> (r: Java)
        ensures
            r@ == self@,
        decreases self,
    {
        match self {
            Java::Primitive { boxed, primitive } => Java::Primitive { boxed, primitive },
            Java::Class(cls) => {
                proof { lemma_type_decreases(*cls); }
                let arguments = Java::copy_all(&cls.arguments);
                Java::Class(Type {
                    package: cls.package.clone(),
                    name: cls.name.clone(),
                    path: copy_strings(&cls.path),
                    arguments,
                })
            },
            Java::Local { name } => Java::Local { name: name.clone() },
            Java::Optional(opt) => {
                let value = opt.value.copy();
                let field = opt.field.copy();
                Java::Optional(Optional { value: Box::new(value), field: Box::new(field) })
            },
        }
    }

    fn copy_all(v: &Vec<Java>) -> (r: Vec<Java>)
        ensures
            views_of(r@) == views_of(v@),
        decreases v,
    {
        let mut r: Vec<Java> = Vec::new();
        let mut i: usize = 0;
        while i < v.len()
            invariant
                i <= v@.len(),
                views_of(r@) == views_of(v@.take(i as int)),
            decreases v@.len() - i,
        {
            proof { assert(decreases_to!(v => v@)); }
            let c = v[i].copy();
            proof {
                assert(r@.push(c).drop_last() =~= r@);
                assert(v@.take(i + 1).drop_last() =~= v@.take(i as int));
            }
            r.push(c);
            i = i + 1;
        }
        assert(v@.take(v@.len() as int) =~= v@);
        r
    }
}

/// The name of a type: the primitive, the class or local name, or the name
/// of the optional value.
pub open spec fn name_of(j: JavaView) -> Seq<char>
    decreases j,
{
    match j {
        JavaView::Primitive { primitive, .. } => primitive,
        JavaView::Class { name, .. } => name,
        JavaView::Local { name } => name,
        JavaView::Optional { value, .. } => name_of(*value),
    }
}

/// The package of a type: `java.lang` for primitives, none for local names.
pub open spec fn package_of(j: JavaView) -> Option<Seq<char>>
    decreases j,
{
    match j {
        JavaView::Primitive { .. } => Some(java_lang()),
        JavaView::Class { package, .. } => Some(package),
        JavaView::Local { .. } => None,
        JavaView::Optional { value, .. } => package_of(*value),
    }
}

/// The generic arguments of a class, or of the value of an optional.
pub open spec fn arguments_of(j: JavaView) -> Option<Seq<JavaView>>
    decreases j,
{
    match j {
        JavaView::Class { arguments, .. } => Some(arguments),
        JavaView::Optional { value, .. } => arguments_of(*value),
        _ => None,
    }
}

/// Whether two types are the same: primitives by name, classes by package,
/// name and arguments (the nested path is not compared); nothing else is.
pub open spec fn java_equals(a: JavaView, b: JavaView) -> bool
    decreases a,
{
    match (a, b) {
        (
            JavaView::Primitive { primitive: l, .. },
            JavaView::Primitive { primitive: r, .. },
        ) => l == r,
        (
            JavaView::Class { package: lp, name: ln, arguments: la, .. },
            JavaView::Class { package: rp, name: rn, arguments: ra, .. },
        ) => lp == rp && ln == rn && la.len() == ra.len() && forall|i: int|
            0 <= i < la.len() ==> java_equals(#[trigger] la[i], ra[i]),
        _ => false,
    }
}

/// The `void` pseudo-primitive.
pub open spec fn void_view() -> JavaView {
    JavaView::Primitive { boxed: seq!['V', 'o', 'i', 'd'], primitive: seq!['v', 'o', 'i', 'd'] }
}

/// `short`.
pub fn short() -> (r: Java)
    ensures
        r@ == (JavaView::Primitive { boxed: "Short"@, primitive: "short"@ }),
{
    Java::Primitive { boxed: "Short", primitive: "short" }
}

/// `int`.
pub fn integer() -> (r: Java)
    ensures
        r@ == (JavaView::Primitive { boxed: "Integer"@, primitive: "int"@ }),
{
    Java::Primitive { boxed: "Integer", primitive: "int" }
}

/// `long`.
pub fn long() -> (r: Java)
    ensures
        r@ == (JavaView::Primitive { boxed: "Long"@, primitive: "long"@ }),
{
    Java::Primitive { boxed: "Long", primitive: "long" }
}

/// `float`.
pub fn float() -> (r: Java)
    ensures
        r@ == (JavaView::Primitive { boxed: "Float"@, primitive: "float"@ }),
{
    Java::Primitive { boxed: "Float", primitive: "float" }
}

/// `double`.
pub fn double() -> (r: Java)
    ensures
        r@ == (JavaView::Primitive { boxed: "Double"@, primitive: "double"@ }),
{
    Java::Primitive { boxed: "Double", primitive: "double" }
}

/// `char`.
pub fn character() -> (r: Java)
    ensures
        r@ == (JavaView::Primitive { boxed: "Character"@, primitive: "char"@ }),
{
    Java::Primitive { boxed: "Character", primitive: "char" }
}

/// `boolean`.
pub fn boolean() -> (r: Java)
    ensures
        r@ == (JavaView::Primitive { boxed: "Boolean"@, primitive: "boolean"@ }),
{
    Java::Primitive { boxed: "Boolean", primitive: "boolean" }
}

/// `byte`.
pub fn byte() -> (r: Java)
    ensures
        r@ == (JavaView::Primitive { boxed: "Byte"@, primitive: "byte"@ }),
{
    Java::Primitive { boxed: "Byte", primitive: "byte" }
}

/// `void`, which is not counted as a primitive.
pub fn void() -> (r: Java)
    ensures
        r@ == void_view(),
{
    proof {
        reveal_strlit("Void");
        reveal_strlit("void");
        assert("Void"@ =~= seq!['V', 'o', 'i', 'd']);
        assert("void"@ =~= seq!['v', 'o', 'i', 'd']);
    }
    Java::Primitive { boxed: "Void", primitive: "void" }
}

/// A class imported from a package.
pub fn imported(package: &str, name: &str) -> (r: Java)
    ensures
        r@ == (JavaView::Class {
            package: package@,
            name: name@,
            path: Seq::empty(),
            arguments: Seq::empty(),
        }),
{
    let r = Java::Class(
        Type {
            package: package.to_owned(),
            name: name.to_owned(),
            path: Vec::new(),
            arguments: Vec::new(),
        },
    );
    proof {
        assert(texts_of(Seq::<String>::empty()) =~= Seq::<Seq<char>>::empty());
        assert(views_of(Seq::<Java>::empty()) =~= Seq::<JavaView>::empty());
    }
    r
}

/// A local name.
pub fn local(name: &str) -> (r: Java)
    ensures
        r@ == (JavaView::Local { name: name@ }),
{
    Java::Local { name: name.to_owned() }
}

/// An optional type: the value type and the full field type.
pub fn optional(value: Java, field: Java) -> (r: Java)
    ensures
        r@ == (JavaView::Optional { value: Box::new(value@), field: Box::new(field@) }),
{
    Java::Optional(Optional { value: Box::new(value), field: Box::new(field) })
}

impl Java {
    /// Extend a class with a nested path part, dropping its arguments; any
    /// other type is returned as it is.
    pub fn path(&self, part: &str) -> (r: Java)
        ensures
            r@ == match self@ {
                JavaView::Class { package, name, path, .. } => JavaView::Class {
                    package,
                    name,
                    path: path.push(part@),
                    arguments: Seq::empty(),
                },
                other => other,
            },
    {
        match self {
            Java::Class(cls) => {
                let mut path = copy_strings(&cls.path);
                let ghost before = path@;
                path.push(part.to_owned());
                proof {
                    assert(texts_of(path@) =~= texts_of(before).push(part@));
                    assert(views_of(Seq::<Java>::empty()) =~= Seq::<JavaView>::empty());
                }
                Java::Class(
                    Type {
                        package: cls.package.clone(),
                        name: cls.name.clone(),
                        path,
                        arguments: Vec::new(),
                    },
                )
            },
            other => other.copy(),
        }
    }

    /// A class with the given arguments; any other type is returned as it is.
    pub fn with_arguments(&self, arguments: Vec<Java>) -> (r: Java)
        ensures
            r@ == match self@ {
                JavaView::Class { package, name, path, .. } => JavaView::Class {
                    package,
                    name,
                    path,
                    arguments: views_of(arguments@),
                },
                other => other,
            },
    {
        match self {
            Java::Class(cls) => Java::Class(
                Type {
                    package: cls.package.clone(),
                    name: cls.name.clone(),
                    path: copy_strings(&cls.path),
                    arguments,
                },
            ),
            other => other.copy(),
        }
    }

    /// The raw type: a class without generic arguments.
    pub fn as_raw(&self) -> (r: Java)
        ensures
            r@ == match self@ {
                JavaView::Class { package, name, path, .. } => JavaView::Class {
                    package,
                    name,
                    path,
                    arguments: Seq::empty(),
                },
                other => other,
            },
    {
        proof { assert(views_of(Seq::<Java>::empty()) =~= Seq::<JavaView>::empty()); }
        self.with_arguments(Vec::new())
    }

    /// The boxed class of a primitive; any other type is returned as it is.
    pub fn as_boxed(&self) -> (r: Java)
        ensures
            r@ == match self@ {
                JavaView::Primitive { boxed, .. } => JavaView::Class {
                    package: java_lang(),
                    name: boxed,
                    path: Seq::empty(),
                    arguments: Seq::empty(),
                },
                other => other,
            },
    {
        match self {
            Java::Primitive { boxed, .. } => {
                let r = Java::Class(
                    Type {
                        package: java_lang_string(),
                        name: (*boxed).to_owned(),
                        path: Vec::new(),
                        arguments: Vec::new(),
                    },
                );
                proof {
                    assert(texts_of(Seq::<String>::empty()) =~= Seq::<Seq<char>>::empty());
                    assert(views_of(Seq::<Java>::empty()) =~= Seq::<JavaView>::empty());
                }
                r
            },
            other => other.copy(),
        }
    }

    /// Whether two types are the same (see `java_equals`).
    pub fn equals(&self, other: &Java) -> (r: bool)
        ensures
            r == java_equals(self@, other@),
        decreases self,
    {
        match self {
            Java::Primitive { primitive: l, .. } => match other {
                Java::Primitive { primitive: r, .. } => text_eq(l, r),
                _ => false,
            },
            Java::Class(l) => {
                let r = match other {
                    Java::Class(r) => r,
                    _ => {
                        return false;
                    },
                };
                proof {
                    lemma_type_decreases(*l);
                    lemma_views_index(l.arguments@);
                    lemma_views_index(r.arguments@);
                }
                if !text_eq(l.package.as_str(), r.package.as_str()) {
                    return false;
                }
                if !text_eq(l.name.as_str(), r.name.as_str()) {
                    return false;
                }
                if l.arguments.len() != r.arguments.len() {
                    return false;
                }
                let ghost la = views_of(l.arguments@);
                let ghost ra = views_of(r.arguments@);
                assert(self@ == (JavaView::Class {
                    package: l.package@,
                    name: l.name@,
                    path: texts_of(l.path@),
                    arguments: la,
                }));
                assert(other@ == (JavaView::Class {
                    package: r.package@,
                    name: r.name@,
                    path: texts_of(r.path@),
                    arguments: ra,
                }));
                assert(decreases_to!(*self => *l));
                assert(decreases_to!(*self => l.arguments@));
                let mut i: usize = 0;
                while i < l.arguments.len()
                    invariant
                        decreases_to!(*self => l.arguments@),
                        self@ == (JavaView::Class {
                            package: l.package@,
                            name: l.name@,
                            path: texts_of(l.path@),
                            arguments: la,
                        }),
                        other@ == (JavaView::Class {
                            package: r.package@,
                            name: r.name@,
                            path: texts_of(r.path@),
                            arguments: ra,
                        }),
                        i <= l.arguments@.len(),
                        l.arguments@.len() == r.arguments@.len(),
                        la == views_of(l.arguments@),
                        ra == views_of(r.arguments@),
                        la.len() == l.arguments@.len(),
                        ra.len() == r.arguments@.len(),
                        forall|k: int| 0 <= k < l.arguments@.len() ==> #[trigger] la[k] == l.arguments@[k]@,
                        forall|k: int| 0 <= k < r.arguments@.len() ==> #[trigger] ra[k] == r.arguments@[k]@,
                        forall|k: int| 0 <= k < i ==> java_equals(#[trigger] la[k], ra[k]),
                    decreases l.arguments@.len() - i,
                {
                    proof {
                        assert(decreases_to!(l.arguments@ => l.arguments@[i as int]));
                    }
                    if !l.arguments[i].equals(&r.arguments[i]) {
                        assert(!java_equals(la[i as int], ra[i as int]));
                        return false;
                    }
                    i = i + 1;
                }
                true
            },
            _ => false,
        }
    }

    /// The name of the type.
    pub fn name(&self) -> (r: String)
        ensures
            r@ == name_of(self@),
        decreases self,
    {
        match self {
            Java::Primitive { primitive, .. } => (*primitive).to_owned(),
            Java::Class(cls) => cls.name.clone(),
            Java::Local { name } => name.clone(),
            Java::Optional(opt) => opt.value.name(),
        }
    }

    /// The package of the type.
    pub fn package(&self) -> (r: Option<String>)
        ensures
            r matches Some(p) ==> package_of(self@) == Some(p@),
            r is None ==> package_of(self@) is None,
        decreases self,
    {
        match self {
            Java::Primitive { .. } => Some(java_lang_string()),
            Java::Class(cls) => Some(cls.package.clone()),
            Java::Local { .. } => None,
            Java::Optional(opt) => opt.value.package(),
        }
    }

    /// The generic arguments of a class, or of the value of an optional.
    pub fn arguments(&self) -> (r: Option<&[Java]>)
        ensures
            r matches Some(a) ==> arguments_of(self@) == Some(views_of(a@)),
            r is None ==> arguments_of(self@) is None,
        decreases self,
    {
        match self {
            Java::Class(cls) => Some(cls.arguments.as_slice()),
            Java::Optional(opt) => opt.value.arguments(),
            _ => None,
        }
    }

    /// Whether the type is optional.
    pub fn is_optional(&self) -> (r: bool)
        ensures
            r == (self@ is Optional),
    {
        match self {
            Java::Optional(_) => true,
            _ => false,
        }
    }

    /// Whether the type is a primitive other than `void`.
    pub fn is_primitive(&self) -> (r: bool)
        ensures
            r == (self@ is Primitive && self@ != void_view()),
    {
        match self {
            Java::Primitive { boxed, primitive } => {
                proof {
                    reveal_strlit("Void");
                    reveal_strlit("void");
                    assert("Void"@ =~= seq!['V', 'o', 'i', 'd']);
                    assert("void"@ =~= seq!['v', 'o', 'i', 'd']);
                }
                let is_void = text_eq(boxed, "Void") && text_eq(primitive, "void");
                !is_void
            },
            _ => false,
        }
    }

    /// The optional parts of an optional type.
    pub fn as_optional(&self) -> (r: Option<&Optional>)
        ensures
            r matches Some(o) ==> self@ == (JavaView::Optional {
                value: Box::new((*o.value)@),
                field: Box::new((*o.field)@),
            }),
            r is None ==> !(self@ is Optional),
    {
        match self {
            Java::Optional(opt) => Some(opt),
            _ => None,
        }
    }

    /// The field type: the full type of an optional, else the type itself.
    pub fn as_field(&self) -> (r: Java)
        ensures
            r@ == match self@ {
                JavaView::Optional { field, .. } => *field,
                other => other,
            },
    {
        match self.as_optional() {
            Some(opt) => opt.field.copy(),
            None => self.copy(),
        }
    }

    /// The value type: the value of an optional, else the type itself.
    pub fn as_value(&self) -> (r: Java)
        ensures
            r@ == match self@ {
                JavaView::Optional { value, .. } => *value,
                other => other,
            },
    {
        match self.as_optional() {
            Some(opt) => opt.value.copy(),
            None => self.copy(),
        }
    }

    /// Whether the type has generic arguments.
    pub fn is_generic(&self) -> (r: bool)
        ensures
            r == (arguments_of(self@) matches Some(a) && a.len() > 0),
    {
        match self.arguments() {
            Some(a) => {
                proof { lemma_views_index(a@); }
                a.len() > 0
            },
            None => false,
        }
    }
}

/// Per-render state: the package of the file, and the names imported so far
/// with the package each came from.
#[derive(Debug)]
pub struct Extra {
    /// Package of the file.
    pub package: Option<String>,
    /// Names imported into the file, each with its package.
    imported: Vec<(String, String)>,
}

/// The mathematical form of `Extra`.
pub struct ExtraView {
    pub package: Option<Seq<char>>,
    pub imported: Seq<(Seq<char>, Seq<char>)>,
}

/// The texts of a sequence of string pairs.
pub open spec fn pairs_of(s: Seq<(String, String)>) -> Seq<(Seq<char>, Seq<char>)> {
    s.map_values(|p: (String, String)| (p.0@, p.1@))
}

/// The text of an optional string.
pub open spec fn option_text(o: Option<String>) -> Option<Seq<char>> {
    match o {
        Some(s) => Some(s@),
        None => None,
    }
}

impl View for Extra {
    type V = ExtraView;

    closed spec fn view(&self) -> ExtraView {
        ExtraView { package: option_text(self.package), imported: pairs_of(self.imported@) }
    }
}

impl Default for Extra {
    fn default() -> (r: Self)
        ensures
            r@ == (ExtraView { package: None, imported: Seq::empty() }),
    {
        let r = Extra { package: None, imported: Vec::new() };
        assert(pairs_of(r.imported@) =~= Seq::empty());
        r
    }
}

impl Extra {
    /// State for a file of the given package, with nothing imported.
    pub fn new(package: &str) -> (r: Self)
        ensures
            r@ == (ExtraView { package: Some(package@), imported: Seq::empty() }),
    {
        let r = Extra { package: Some(package.to_owned()), imported: Vec::new() };
        assert(pairs_of(r.imported@) =~= Seq::empty());
        r
    }

    /// Set the package of the file.
    pub fn package(&mut self, package: &str)
        ensures
            final(self)@ == (ExtraView { package: Some(package@), ..old(self)@ }),
    {
        self.package = Some(package.to_owned());
    }

    /// The package a name was imported from, if it was.
    pub fn imported_from(&self, name: &str) -> (r: Option<&String>)
        ensures
            option_text_ref(r) == lookup(self@.imported, name@),
    {
        let n = self.imported.len();
        let mut i: usize = 0;
        while i < n
            invariant
                n == self.imported@.len(),
                i <= n,
                lookup(self@.imported, name@) == lookup_from(self@.imported, name@, i as int),
            decreases n - i,
        {
            if text_eq(self.imported[i].0.as_str(), name) {
                return Some(&self.imported[i].1);
            }
            i = i + 1;
        }
        None
    }

    fn record(&mut self, name: &String, package: &String)
        ensures
            final(self)@ == (ExtraView {
                imported: old(self)@.imported.push((name@, package@)),
                ..old(self)@
            }),
    {
        let ghost before = self.imported@;
        self.imported.push((name.clone(), package.clone()));
        assert(pairs_of(self.imported@) =~= pairs_of(before).push((name@, package@)));
    }
}

/// The text of an optional string reference.
pub open spec fn option_text_ref(o: Option<&String>) -> Option<Seq<char>> {
    match o {
        Some(s) => Some(s@),
        None => None,
    }
}

/// The package the first entry for `name` came from, looking from `i` on.
pub open spec fn lookup_from(s: Seq<(Seq<char>, Seq<char>)>, name: Seq<char>, i: int) -> Option<
    Seq<char>,
>
    decreases s.len() - i,
{
    if i < 0 || i >= s.len() {
        None
    } else if s[i].0 == name {
        Some(s[i].1)
    } else {
        lookup_from(s, name, i + 1)
    }
}

/// The package that `name` was imported from, if it was.
pub open spec fn lookup(s: Seq<(Seq<char>, Seq<char>)>, name: Seq<char>) -> Option<Seq<char>> {
    lookup_from(s, name, 0)
}

/// The qualification written before a class name: none for `java.lang`, for
/// a name imported from the same package, or for the file's own package.
pub open spec fn class_prefix(package: Seq<char>, name: Seq<char>, extra: ExtraView) -> Seq<char> {
    if package != java_lang() && lookup(extra.imported, name) != Some(package) && extra.package
        != Some(package) {
        package + seq!['.']
    } else {
        Seq::empty()
    }
}

/// `.part` for each part of a nested path.
pub open spec fn path_suffix(path: Seq<Seq<char>>) -> Seq<char>
    decreases path.len(),
{
    if path.len() == 0 {
        Seq::empty()
    } else {
        path_suffix(path.drop_last()) + seq!['.'] + path.last()
    }
}

/// The text of a type. Primitives nested inside generic arguments (level
/// above zero) are written boxed.
pub open spec fn format_java(j: JavaView, level: nat, extra: ExtraView) -> Seq<char>
    decreases j,
{
    match j {
        JavaView::Primitive { boxed, primitive } => if level > 0 {
            boxed
        } else {
            primitive
        },
        JavaView::Class { package, name, path, arguments } => class_prefix(package, name, extra)
            + name + path_suffix(path) + if arguments.len() > 0 {
            seq!['<'] + format_arguments(arguments, deeper(level), extra) + seq!['>']
        } else {
            Seq::empty()
        },
        JavaView::Local { name } => name,
        JavaView::Optional { field, .. } => format_java(*field, level, extra),
    }
}

/// Generic arguments separated by `, `.
pub open spec fn format_arguments(args: Seq<JavaView>, level: nat, extra: ExtraView) -> Seq<char>
    decreases args,
{
    if args.len() == 0 {
        Seq::empty()
    } else if args.len() == 1 {
        format_java(args[0], level, extra)
    } else {
        format_arguments(args.drop_last(), level, extra) + seq![',', ' '] + format_java(
            args.last(),
            level,
            extra,
        )
    }
}

fn push_text(out: &mut String, text: &str)
    ensures
        final(out)@ == old(out)@ + text@,
{
    out.append(text);
}

impl Java {
    /// Write the text of the type at the end of `out`.
    pub fn format_into(&self, out: &mut String, level: usize, extra: &Extra)
        ensures
            final(out)@ == old(out)@ + format_java(self@, level as nat, extra@),
        decreases self,
    {
        match self {
            Java::Primitive { boxed, primitive } => {
                if level > 0 {
                    push_text(out, boxed);
                } else {
                    push_text(out, primitive);
                }
            },
            Java::Class(cls) => {
                let ghost base = out@;
                proof {
                    lemma_type_decreases(*cls);
                    lemma_views_index(cls.arguments@);
                }
                let ghost args = views_of(cls.arguments@);
                assert(self@ == (JavaView::Class {
                    package: cls.package@,
                    name: cls.name@,
                    path: texts_of(cls.path@),
                    arguments: args,
                }));
                let lang = java_lang_string();
                let same_import = match extra.imported_from(cls.name.as_str()) {
                    Some(p) => text_eq(p.as_str(), cls.package.as_str()),
                    None => false,
                };
                let same_package = match &extra.package {
                    Some(p) => text_eq(p.as_str(), cls.package.as_str()),
                    None => false,
                };
                if !text_eq(cls.package.as_str(), lang.as_str()) && !same_import && !same_package {
                    push_text(out, cls.package.as_str());
                    push_char(out, '.');
                }
                assert(out@ == base + class_prefix(cls.package@, cls.name@, extra@));
                push_text(out, cls.name.as_str());
                let ghost head = out@;
                let mut i: usize = 0;
                while i < cls.path.len()
                    invariant
                        i <= cls.path@.len(),
                        out@ == head + path_suffix(texts_of(cls.path@).take(i as int)),
                    decreases cls.path@.len() - i,
                {
                    push_char(out, '.');
                    push_text(out, cls.path[i].as_str());
                    assert(texts_of(cls.path@).take(i + 1).drop_last() =~= texts_of(cls.path@).take(i as int));
                    i = i + 1;
                }
                assert(texts_of(cls.path@).take(cls.path@.len() as int) =~= texts_of(cls.path@));
                let n = cls.arguments.len();
                if n > 0 {
                    let inner = level.saturating_add(1);
                    assert(inner as nat == deeper(level as nat));
                    push_char(out, '<');
                    let ghost open = out@;
                    let mut k: usize = 0;
                    while k < n
                        invariant
                            n == cls.arguments@.len(),
                            k <= n,
                            args == views_of(cls.arguments@),
                            args.len() == n,
                            forall|j: int| 0 <= j < n ==> #[trigger] args[j] == cls.arguments@[j]@,
                            decreases_to!(*self => cls.arguments@),
                            out@ == open + format_arguments(args.take(k as int), inner as nat, extra@),
                        decreases n - k,
                    {
                        proof { assert(decreases_to!(cls.arguments@ => cls.arguments@[k as int])); }
                        if k > 0 {
                            push_char(out, ',');
                            push_char(out, ' ');
                        }
                        cls.arguments[k].format_into(out, inner, extra);
                        assert(args.take(k + 1).drop_last() =~= args.take(k as int));
                        k = k + 1;
                    }
                    assert(args.take(n as int) =~= args);
                    push_char(out, '>');
                }
            },
            Java::Local { name } => push_text(out, name.as_str()),
            Java::Optional(opt) => opt.field.format_into(out, level, extra),
        }
    }
}

/// `package name;` on a line of its own, when the file has a package.
pub open spec fn package_part(extra: ExtraView) -> Seq<Node<Java>> {
    match extra.package {
        Some(p) => seq![
            Node::Push(seq![Node::Literal("package "@), Node::Literal(p), Node::Literal(";"@)]),
        ],
        None => Seq::empty(),
    }
}

/// A Java file: package line, import block, body, separated by blank lines.
pub open spec fn java_file(body: Seq<Node<Java>>, extra: ExtraView) -> (Seq<Node<Java>>, ExtraView) {
    let pairs = collected_imports(body);
    let (lines, extra2) = import_lines(pairs, extra);
    let imports = if pairs.len() == 0 {
        Seq::empty()
    } else {
        seq![Node::Push(lines)]
    };
    (
        interleave(
            without_empty(package_part(extra) + imports + seq![Node::Push(body)]),
            Node::LineSpacing,
        ),
        extra2,
    )
}

/// Java's escapes inside a string literal.
pub open spec fn java_escape(c: char) -> Seq<char> {
    if c == '\t' {
        seq!['\\', 't']
    } else if c == '\u{0008}' {
        seq!['\\', 'b']
    } else if c == '\n' {
        seq!['\\', 'n']
    } else if c == '\r' {
        seq!['\\', 'r']
    } else if c == '\u{000C}' {
        seq!['\\', 'f']
    } else if c == '\'' {
        seq!['\\', '\'']
    } else if c == '"' {
        seq!['\\', '"']
    } else if c == '\\' {
        seq!['\\', '\\']
    } else {
        seq![c]
    }
}

/// The escaped form of a whole string.
pub open spec fn java_escaped(s: Seq<char>) -> Seq<char>
    decreases s.len(),
{
    if s.len() == 0 {
        Seq::empty()
    } else {
        java_escaped(s.drop_last()) + java_escape(s.last())
    }
}

fn push_java_escape(out: &mut String, c: char)
    ensures
        final(out)@ == old(out)@ + java_escape(c),
{
    if c == '\t' {
        push_char(out, '\\');
        push_char(out, 't');
    } else if c == '\u{0008}' {
        push_char(out, '\\');
        push_char(out, 'b');
    } else if c == '\n' {
        push_char(out, '\\');
        push_char(out, 'n');
    } else if c == '\r' {
        push_char(out, '\\');
        push_char(out, 'r');
    } else if c == '\u{000C}' {
        push_char(out, '\\');
        push_char(out, 'f');
    } else if c == '\'' || c == '"' || c == '\\' {
        push_char(out, '\\');
        push_char(out, c);
    } else {
        push_char(out, c);
    }
}

impl Custom for Java {
    type Extra = Extra;

    open spec fn spec_format(&self, level: nat, extra: ExtraView) -> Seq<char> {
        format_java(self@, level, extra)
    }

    fn format(&self, level: usize, extra: &Extra) -> (r: String) {
        let mut out = String::new();
        self.format_into(&mut out, level, extra);
        out
    }

    open spec fn spec_quote(input: Seq<char>) -> Seq<char> {
        seq!['"'] + java_escaped(input) + seq!['"']
    }

    fn quote_string(input: &str) -> (r: String) {
        broadcast use vstd::string::group_string_axioms;

        let mut out = String::new();
        push_char(&mut out, '"');
        for c in it: input.chars()
            invariant
                it.seq() == input@,
                out@ == seq!['"'] + java_escaped(input@.take(it.index() as int)),
        {
            assert(input@.take(it.index() + 1).drop_last() =~= input@.take(it.index() as int));
            push_java_escape(&mut out, c);
        }
        push_char(&mut out, '"');
        assert(input@.take(input@.len() as int) =~= input@);
        out
    }

    open spec fn spec_file(body: Seq<Node<Java>>, extra: ExtraView) -> (Seq<Node<Java>>, ExtraView) {
        java_file(body, extra)
    }

    fn write_file(body: Tokens<Java>, extra: &mut Extra) -> (r: Tokens<Java>) {
        let ghost body_view = body@;
        let ghost start = extra@;
        let mut toks: Tokens<Java> = Tokens::new();
        if let Some(package) = &extra.package {
            let mut line: Tokens<Java> = Tokens::new();
            line.append(Element::literal("package "));
            line.append(Element::Literal(package.clone()));
            line.append(Element::literal(";"));
            assert(line@ =~= seq![
                Node::<Java>::Literal("package "@),
                Node::Literal(package@),
                Node::Literal(";"@),
            ]);
            assert(start.package == Some(package@));
            toks.push(line);
            assert(toks@ =~= package_part(start));
        } else {
            assert(toks@ =~= package_part(start));
        }
        if let Some(imports) = Java::imports(&body, extra) {
            toks.push(imports);
        }
        toks.push(body);
        assert(toks@ =~= package_part(start) + (if collected_imports(body_view).len() == 0 {
            Seq::empty()
        } else {
            seq![Node::Push(import_lines(collected_imports(body_view), start).0)]
        }) + seq![Node::Push(body_view)]);
        toks.join_line_spacing()
    }

    open spec fn spec_default_extra() -> ExtraView {
        ExtraView { package: None, imported: Seq::empty() }
    }

    fn default_extra() -> (r: Extra) {
        Extra::default()
    }
}

} // verus!
