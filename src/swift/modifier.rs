//! Swift declaration modifiers.
use vstd::prelude::*;

use crate::tokens::{Element, Node, Tokens};

verus! {

/// A Swift modifier.
#[derive(Debug, Clone, Copy, PartialEq, Eq, Structural, PartialOrd, Ord, Hash)]
pub enum Modifier {
    /// open modifier
    Open,
    /// public modifier
    Public,
    /// internal modifier
    Internal,
    /// fileprivate modifier
    FilePrivate,
    /// private modifier
    Private,
    /// static modifier
    Static,
    /// final modifier
    Final,
    /// class modifier
    Class,
    /// mutating modifier
    Mutating,
    /// throws modifier
    Throws,
    /// convenience modifier
    Convenience,
    /// override modifier
    Override,
    /// required modifier
    Required,
}

/// The keyword of a modifier.
pub open spec fn keyword(m: Modifier) -> Seq<char> {
    match m {
        Modifier::Open => "open"@,
        Modifier::Public => "public"@,
        Modifier::Internal => "internal"@,
        Modifier::FilePrivate => "fileprivate"@,
        Modifier::Private => "private"@,
        Modifier::Static => "static"@,
        Modifier::Final => "final"@,
        Modifier::Class => "class"@,
        Modifier::Mutating => "mutating"@,
        Modifier::Throws => "throws"@,
        Modifier::Convenience => "convenience"@,
        Modifier::Override => "override"@,
        Modifier::Required => "required"@,
    }
}

/// Every modifier, in declaration order.
pub open spec fn all_modifiers() -> Seq<Modifier> {
    seq![
        Modifier::Open,
        Modifier::Public,
        Modifier::Internal,
        Modifier::FilePrivate,
        Modifier::Private,
        Modifier::Static,
        Modifier::Final,
        Modifier::Class,
        Modifier::Mutating,
        Modifier::Throws,
        Modifier::Convenience,
        Modifier::Override,
        Modifier::Required,
    ]
}

/// The keywords of the given modifiers, each once, in declaration order,
/// looking at the first `k` modifiers of that order.
pub open spec fn keywords_upto<C>(ms: Seq<Modifier>, k: int) -> Seq<Node<C>>
    decreases k,
{
    if k <= 0 {
        Seq::empty()
    } else if ms.contains(all_modifiers()[k - 1]) {
        keywords_upto::<C>(ms, k - 1).push(Node::Literal(keyword(all_modifiers()[k - 1])))
    } else {
        keywords_upto::<C>(ms, k - 1)
    }
}

impl Modifier {
    /// The keyword of the modifier.
    pub fn name(&self) -> (r: &'static str)
        ensures
            r@ == keyword(*self),
    {
        match self {
            Modifier::Open => "open",
            Modifier::Public => "public",
            Modifier::Internal => "internal",
            Modifier::FilePrivate => "fileprivate",
            Modifier::Private => "private",
            Modifier::Static => "static",
            Modifier::Final => "final",
            Modifier::Class => "class",
            Modifier::Mutating => "mutating",
            Modifier::Throws => "throws",
            Modifier::Convenience => "convenience",
            Modifier::Override => "override",
            Modifier::Required => "required",
        }
    }

    /// The keyword as a literal element.
    pub fn element<C>(&self) -> (r: Element<C>)
        ensures
            r@ == Node::<C>::Literal(keyword(*self)),
    {
        Element::literal(self.name())
    }

    fn all() -> (r: Vec<Modifier>)
        ensures
            r@ == all_modifiers(),
    {
        let r = vec![
            Modifier::Open,
            Modifier::Public,
            Modifier::Internal,
            Modifier::FilePrivate,
            Modifier::Private,
            Modifier::Static,
            Modifier::Final,
            Modifier::Class,
            Modifier::Mutating,
            Modifier::Throws,
            Modifier::Convenience,
            Modifier::Override,
            Modifier::Required,
        ];
        assert(r@ =~= all_modifiers());
        r
    }

    /// The keywords of a set of modifiers as tokens: each once, in
    /// declaration order, whatever order and repetition they were given in.
    pub fn into_tokens<C>(modifiers: &Vec<Modifier>) -> (r: Tokens<C>)
        ensures
            r@ == keywords_upto::<C>(modifiers@, 13),
    {
        let all = Modifier::all();
        let mut out: Tokens<C> = Tokens::new();
        let mut k: usize = 0;
        while k < 13
            invariant
                k <= 13,
                all@ == all_modifiers(),
                out@ == keywords_upto::<C>(modifiers@, k as int),
            decreases 13 - k,
        {
            let m = all[k];
            let mut found = false;
            let mut i: usize = 0;
            while i < modifiers.len()
                invariant
                    i <= modifiers@.len(),
                    found == exists|j: int| 0 <= j < i && modifiers@[j] == m,
                decreases modifiers@.len() - i,
            {
                if modifiers[i] == m {
                    found = true;
                }
                i = i + 1;
            }
            if found {
                out.append(m.element());
            }
            k = k + 1;
        }
        out
    }
}

} // verus!
