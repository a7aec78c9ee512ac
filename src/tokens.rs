//! Token trees and the operations that build them.
use vstd::prelude::*;

use std::rc::Rc;

use crate::custom::Custom;
use crate::formatter::{
    deeper, render_node, render_nodes, rendered, rendered_file, Formatter, Pending,
};

verus! {

/// The mathematical form of an element: text as character sequences and
/// sub-trees as sequences of nodes.
pub enum Node<C> {
    Literal(Seq<char>),
    Quoted(Seq<char>),
    Custom(C),
    Registered(C),
    Append(Seq<Node<C>>),
    Push(Seq<Node<C>>),
    Nested(Seq<Node<C>>),
    Spacing,
    PushSpacing,
    LineSpacing,
    Empty,
}

/// One node of a token tree.
#[derive(Debug, PartialEq, Eq)]
pub enum Element<C> {
    /// Text emitted verbatim.
    Literal(String),
    /// Text passed through the language's string quoting.
    Quoted(String),
    /// A language item, formatted by the language; shared, so copies are cheap.
    Custom(Rc<C>),
    /// A language item that takes part in import collection only.
    Registered(Rc<C>),
    /// A sub-tree rendered in place.
    Append(Tokens<C>),
    /// A sub-tree that starts on a line of its own.
    Push(Tokens<C>),
    /// A sub-tree indented one level deeper, on lines of its own.
    Nested(Tokens<C>),
    /// A single space before the next text.
    Spacing,
    /// A line break before the next text.
    PushSpacing,
    /// A blank line before the next text.
    LineSpacing,
    /// Nothing at all: dropped when appended.
    Empty,
}

/// An ordered sequence of elements.
#[derive(Debug, PartialEq, Eq)]
pub struct Tokens<C> {
    elements: Vec<Element<C>>,
}

/// Error of a render. Rendering into memory does not fail, so no render of
/// this library returns it.
#[derive(Debug, PartialEq, Eq)]
pub struct FormatError;

/// The node of an element.
pub open spec fn node_of<C>(e: Element<C>) -> Node<C>
    decreases e,
{
    match e {
        Element::Literal(text) => Node::Literal(text@),
        Element::Quoted(text) => Node::Quoted(text@),
        Element::Custom(item) => Node::Custom(*item),
        Element::Registered(item) => Node::Registered(*item),
        Element::Append(t) => {
            proof { lemma_tokens_decreases(t); }
            Node::Append(nodes_of(t.elements()))
        },
        Element::Push(t) => {
            proof { lemma_tokens_decreases(t); }
            Node::Push(nodes_of(t.elements()))
        },
        Element::Nested(t) => {
            proof { lemma_tokens_decreases(t); }
            Node::Nested(nodes_of(t.elements()))
        },
        Element::Spacing => Node::Spacing,
        Element::PushSpacing => Node::PushSpacing,
        Element::LineSpacing => Node::LineSpacing,
        Element::Empty => Node::Empty,
    }
}

/// The nodes of a sequence of elements.
pub open spec fn nodes_of<C>(s: Seq<Element<C>>) -> Seq<Node<C>>
    decreases s,
{
    if s.len() == 0 {
        Seq::empty()
    } else {
        nodes_of(s.drop_last()).push(node_of(s.last()))
    }
}

impl<C> View for Element<C> {
    type V = Node<C>;

    open spec fn view(&self) -> Node<C> {
        node_of(*self)
    }
}

impl<C> View for Tokens<C> {
    type V = Seq<Node<C>>;

    open spec fn view(&self) -> Seq<Node<C>> {
        nodes_of(self.elements())
    }
}

impl<C> Tokens<C> {
    /// The elements of the tree.
    pub closed spec fn elements(self) -> Seq<Element<C>> {
        self.elements@
    }
}

/// A tree is larger than each of its elements.
pub proof fn lemma_tokens_decreases<C>(t: Tokens<C>)
    ensures
        decreases_to!(t => t.elements()),
{
    assert(decreases_to!(t => t.elements));
    assert(decreases_to!(t.elements => t.elements@));
}

/// Adding an element adds its node.
pub proof fn lemma_nodes_push<C>(s: Seq<Element<C>>, e: Element<C>)
    ensures
        nodes_of(s.push(e)) == nodes_of(s).push(e@),
{
    assert(s.push(e).drop_last() =~= s);
}

/// The nodes line up with the elements, one for one.
pub proof fn lemma_nodes_index<C>(s: Seq<Element<C>>)
    ensures
        nodes_of(s).len() == s.len(),
        forall|i: int| 0 <= i < s.len() ==> #[trigger] nodes_of(s)[i] == s[i]@,
    decreases s.len(),
{
    if s.len() > 0 {
        lemma_nodes_index(s.drop_last());
    }
}

/// Nodes of a concatenation.
pub proof fn lemma_nodes_concat<C>(a: Seq<Element<C>>, b: Seq<Element<C>>)
    ensures
        nodes_of(a + b) == nodes_of(a) + nodes_of(b),
{
    lemma_nodes_index(a);
    lemma_nodes_index(b);
    lemma_nodes_index(a + b);
    assert(nodes_of(a + b) =~= nodes_of(a) + nodes_of(b));
}

/// The nodes after appending one: `Empty` is dropped.
pub open spec fn appended<C>(s: Seq<Node<C>>, e: Node<C>) -> Seq<Node<C>> {
    if e is Empty {
        s
    } else {
        s.push(e)
    }
}

/// The nodes that are not `Empty`, in order.
pub open spec fn without_empty<C>(s: Seq<Node<C>>) -> Seq<Node<C>>
    decreases s.len(),
{
    if s.len() == 0 {
        s
    } else if s.last() is Empty {
        without_empty(s.drop_last())
    } else {
        without_empty(s.drop_last()).push(s.last())
    }
}

/// The nodes with a separator between each two neighbours.
pub open spec fn interleave<C>(s: Seq<Node<C>>, sep: Node<C>) -> Seq<Node<C>>
    decreases s.len(),
{
    if s.len() <= 1 {
        s
    } else {
        interleave(s.drop_last(), sep).push(sep).push(s.last())
    }
}

/// Joining `n` nodes gives `2n - 1` nodes: the originals at the even
/// positions, in order, and the separator at each odd position.
pub proof fn lemma_interleave_shape<C>(s: Seq<Node<C>>, sep: Node<C>)
    ensures
        interleave(s, sep).len() == if s.len() == 0 { 0 } else { 2 * s.len() - 1 },
        forall|i: int| 0 <= i < s.len() ==> #[trigger] interleave(s, sep)[2 * i] == s[i],
        forall|i: int| 0 <= i < s.len() - 1 ==> #[trigger] interleave(s, sep)[2 * i + 1] == sep,
    decreases s.len(),
{
    if s.len() > 1 {
        lemma_interleave_shape(s.drop_last(), sep);
        let r = interleave(s, sep);
        let p = interleave(s.drop_last(), sep);
        assert forall|i: int| 0 <= i < s.len() implies #[trigger] r[2 * i] == s[i] by {
            if i < s.len() - 1 {
                assert(r[2 * i] == p[2 * i]);
                assert(s.drop_last()[i] == s[i]);
            }
        }
        assert forall|i: int| 0 <= i < s.len() - 1 implies #[trigger] r[2 * i + 1] == sep by {
            if i < s.len() - 2 {
                assert(r[2 * i + 1] == p[2 * i + 1]);
            }
        }
    }
}

proof fn lemma_interleave_len<C>(s: Seq<Node<C>>, sep: Node<C>)
    ensures
        interleave(s, sep).len() == 0 <==> s.len() == 0,
{
    lemma_interleave_shape(s, sep);
}

/// Every language item in the nodes, depth first, in order.
pub open spec fn customs_of_nodes<C>(s: Seq<Node<C>>) -> Seq<C>
    decreases s,
{
    if s.len() == 0 {
        Seq::empty()
    } else {
        customs_of_nodes(s.drop_last()) + customs_of_node(s.last())
    }
}

/// Every language item in a node, depth first, in order.
pub open spec fn customs_of_node<C>(e: Node<C>) -> Seq<C>
    decreases e,
{
    match e {
        Node::Custom(item) => seq![item],
        Node::Registered(item) => seq![item],
        Node::Append(s) => customs_of_nodes(s),
        Node::Push(s) => customs_of_nodes(s),
        Node::Nested(s) => customs_of_nodes(s),
        _ => Seq::empty(),
    }
}

/// The values behind a sequence of shared items.
pub open spec fn targets<C>(s: Seq<Rc<C>>) -> Seq<C> {
    s.map_values(|r: Rc<C>| *r)
}

/// Relies on `Rc::clone`: the copy points to the same value.
#[verifier::external_body]
fn share<C>(item: &Rc<C>) -> (r: Rc<C>)
    ensures
        *r == **item,
{
    Rc::clone(item)
}

impl<C> Element<C> {
    /// Text emitted verbatim.
    pub fn literal(text: &str) -> (r: Self)
        ensures
            r@ == Node::<C>::Literal(text@),
    {
        Element::Literal(text.to_owned())
    }

    /// Text passed through the language's quoting.
    pub fn quoted(text: &str) -> (r: Self)
        ensures
            r@ == Node::<C>::Quoted(text@),
    {
        Element::Quoted(text.to_owned())
    }

    /// A language item to render.
    pub fn custom(item: C) -> (r: Self)
        ensures
            r@ == Node::Custom(item),
    {
        Element::Custom(Rc::new(item))
    }

    /// A copy of the element; language items are shared, not copied.
    pub fn duplicate(&self) -> (r: Self)
        ensures
            r@ == self@,
        decreases self,
    {
        match self {
            Element::Literal(text) => Element::Literal(text.clone()),
            Element::Quoted(text) => Element::Quoted(text.clone()),
            Element::Custom(item) => Element::Custom(share(item)),
            Element::Registered(item) => Element::Registered(share(item)),
            Element::Append(t) => Element::Append(t.duplicate()),
            Element::Push(t) => Element::Push(t.duplicate()),
            Element::Nested(t) => Element::Nested(t.duplicate()),
            Element::Spacing => Element::Spacing,
            Element::PushSpacing => Element::PushSpacing,
            Element::LineSpacing => Element::LineSpacing,
            Element::Empty => Element::Empty,
        }
    }
}

impl<C: Custom> Element<C> {
    /// Render the element into `out` at the given nesting level.
    pub fn format(&self, out: &mut Formatter, extra: &C::Extra, level: usize)
        ensures
            final(out)@ == render_node(self@, level as nat, extra@, old(out)@),
        decreases self,
    {
        match self {
            Element::Literal(text) => out.write_text(text.as_str(), level),
            Element::Quoted(text) => {
                let quoted = C::quote_string(text.as_str());
                out.write_text(quoted.as_str(), level);
            },
            Element::Custom(item) => {
                let text = item.format(level, extra);
                out.write_text(text.as_str(), level);
            },
            Element::Registered(_) => {},
            Element::Empty => {},
            Element::Spacing => out.request(Pending::Space),
            Element::PushSpacing => out.request(Pending::Line),
            Element::LineSpacing => out.request(Pending::Blank),
            Element::Append(t) => t.format(out, extra, level),
            Element::Push(t) => {
                out.request(Pending::Line);
                t.format(out, extra, level);
            },
            Element::Nested(t) => {
                out.request(Pending::Line);
                let inner = level.saturating_add(1);
                assert(inner as nat == deeper(level as nat));
                t.format(out, extra, inner);
                out.request(Pending::Line);
            },
        }
    }
}

impl<C> Tokens<C> {
    /// An empty tree.
    pub fn new() -> (r: Self)
        ensures
            r@ == Seq::<Node<C>>::empty(),
    {
        Tokens { elements: Vec::new() }
    }

    fn push_element(&mut self, element: Element<C>)
        ensures
            final(self)@ == old(self)@.push(element@),
    {
        proof { lemma_nodes_push(self.elements@, element); }
        self.elements.push(element);
    }

    /// Add a sub-tree indented one level deeper.
    pub fn nested(&mut self, tokens: Tokens<C>)
        ensures
            final(self)@ == old(self)@.push(Node::Nested(tokens@)),
    {
        self.push_element(Element::Nested(tokens));
    }

    /// Add a sub-tree that starts on a line of its own.
    pub fn push(&mut self, tokens: Tokens<C>)
        ensures
            final(self)@ == old(self)@.push(Node::Push(tokens@)),
    {
        self.push_element(Element::Push(tokens));
    }

    /// Add a copy of a sub-tree on a line of its own; its language items are
    /// shared with `tokens`.
    pub fn push_ref(&mut self, tokens: &Tokens<C>)
        ensures
            final(self)@ == old(self)@.push(Node::Push(tokens@)),
    {
        self.push(tokens.duplicate());
    }

    /// Add a copy of a sub-tree indented one level deeper; its language items
    /// are shared with `tokens`.
    pub fn nested_ref(&mut self, tokens: &Tokens<C>)
        ensures
            final(self)@ == old(self)@.push(Node::Nested(tokens@)),
    {
        self.nested(tokens.duplicate());
    }

    /// Add a copy of an element at the end; `Empty` is dropped.
    pub fn append_ref(&mut self, element: &Element<C>)
        ensures
            final(self)@ == appended(old(self)@, element@),
    {
        self.append(element.duplicate());
    }

    /// Add a sub-tree on a line of its own, unless it has no elements.
    pub fn push_unless_empty(&mut self, tokens: Tokens<C>)
        ensures
            final(self)@ == if tokens@.len() == 0 {
                old(self)@
            } else {
                old(self)@.push(Node::Push(tokens@))
            },
    {
        if tokens.is_empty() {
            return;
        }
        self.push_element(Element::Push(tokens));
    }

    /// Put an element at the given position.
    pub fn insert(&mut self, pos: usize, element: Element<C>)
        requires
            pos <= old(self)@.len(),
        ensures
            final(self)@ == old(self)@.insert(pos as int, element@),
    {
        let ghost before = self.elements@;
        proof { lemma_nodes_index(before); }
        self.elements.insert(pos, element);
        proof {
            lemma_nodes_index(self.elements@);
            assert(self@ =~= nodes_of(before).insert(pos as int, element@));
        }
    }

    /// Add an element at the end; `Empty` is dropped.
    pub fn append(&mut self, element: Element<C>)
        ensures
            final(self)@ == appended(old(self)@, element@),
    {
        if let Element::Empty = element {
            return;
        }
        self.push_element(element);
    }

    /// Add a sub-tree in place, unless it has no elements.
    pub fn append_unless_empty(&mut self, tokens: Tokens<C>)
        ensures
            final(self)@ == if tokens@.len() == 0 {
                old(self)@
            } else {
                old(self)@.push(Node::Append(tokens@))
            },
    {
        if tokens.is_empty() {
            return;
        }
        self.push_element(Element::Append(tokens));
    }

    /// Add the given elements at the end, in order.
    pub fn extend(&mut self, elements: Vec<Element<C>>)
        ensures
            final(self)@ == old(self)@ + nodes_of(elements@),
    {
        let ghost before = self.elements@;
        let mut elements = elements;
        let ghost added = elements@;
        self.elements.append(&mut elements);
        proof { lemma_nodes_concat(before, added); }
    }

    /// Add a language item that is collected for imports but not rendered.
    pub fn register(&mut self, custom: C)
        ensures
            final(self)@ == old(self)@.push(Node::Registered(custom)),
    {
        self.push_element(Element::Registered(Rc::new(custom)));
    }

    /// Whether the tree has no elements.
    pub fn is_empty(&self) -> (r: bool)
        ensures
            r == (self@.len() == 0),
    {
        proof { lemma_nodes_index(self.elements@); }
        self.elements.len() == 0
    }

    /// The number of elements at the top of the tree.
    pub fn len(&self) -> (r: usize)
        ensures
            r == self@.len(),
    {
        proof { lemma_nodes_index(self.elements@); }
        self.elements.len()
    }

    /// The elements, in order.
    pub fn into_elements(self) -> (r: Vec<Element<C>>)
        ensures
            nodes_of(r@) == self@,
    {
        self.elements
    }

    /// A tree holding the given elements.
    pub fn from_elements(elements: Vec<Element<C>>) -> (r: Self)
        ensures
            r@ == nodes_of(elements@),
    {
        Tokens { elements }
    }

    /// A copy of the tree; language items are shared, not copied.
    pub fn duplicate(&self) -> (r: Self)
        ensures
            r@ == self@,
        decreases self,
    {
        let n = self.elements.len();
        let mut copy: Vec<Element<C>> = Vec::new();
        let mut i: usize = 0;
        while i < n
            invariant
                n == self.elements@.len(),
                i <= n,
                nodes_of(copy@) == nodes_of(self.elements@.take(i as int)),
            decreases n - i,
        {
            proof {
                assert(decreases_to!(self => self.elements));
                assert(decreases_to!(self.elements => self.elements@));
            }
            let element = self.elements[i].duplicate();
            proof {
                lemma_nodes_push(copy@, element);
                lemma_nodes_push(self.elements@.take(i as int), self.elements@[i as int]);
                assert(self.elements@.take(i + 1) =~= self.elements@.take(i as int).push(self.elements@[i as int]));
                assert(nodes_of(self.elements@.take(i + 1)).drop_last() =~= nodes_of(self.elements@.take(i as int)));
            }
            copy.push(element);
            i = i + 1;
        }
        assert(self.elements@.take(n as int) =~= self.elements@);
        Tokens { elements: copy }
    }

    fn walk_into(&self, found: &mut Vec<Rc<C>>)
        ensures
            targets(final(found)@) == targets(old(found)@) + customs_of_nodes(self@),
        decreases self,
    {
        let n = self.elements.len();
        let mut i: usize = 0;
        while i < n
            invariant
                n == self.elements@.len(),
                i <= n,
                targets(found@) == targets(old(found)@) + customs_of_nodes(nodes_of(self.elements@.take(i as int))),
            decreases n - i,
        {
            proof {
                assert(decreases_to!(self => self.elements));
                assert(decreases_to!(self.elements => self.elements@));
                lemma_nodes_push(self.elements@.take(i as int), self.elements@[i as int]);
                assert(self.elements@.take(i + 1) =~= self.elements@.take(i as int).push(self.elements@[i as int]));
                assert(nodes_of(self.elements@.take(i + 1)).drop_last() =~= nodes_of(self.elements@.take(i as int)));
            }
            let ghost before = found@;
            let element = &self.elements[i];
            let ghost prev = customs_of_nodes(nodes_of(self.elements@.take(i as int)));
            assert(customs_of_nodes(nodes_of(self.elements@.take(i + 1))) == prev + customs_of_node(element@));
            match element {
                Element::Custom(item) => {
                    found.push(share(item));
                    assert(targets(found@) =~= targets(before).push(**item));
                },
                Element::Registered(item) => {
                    found.push(share(item));
                    assert(targets(found@) =~= targets(before).push(**item));
                },
                Element::Append(t) => t.walk_into(found),
                Element::Push(t) => t.walk_into(found),
                Element::Nested(t) => t.walk_into(found),
                _ => {},
            }
            assert(targets(found@) =~= targets(old(found)@) + (prev + customs_of_node(element@)));
            i = i + 1;
        }
        assert(self.elements@.take(n as int) =~= self.elements@);
    }

    /// Every language item in the tree, rendered or only registered, depth
    /// first and in order.
    pub fn walk_custom(&self) -> (r: Vec<Rc<C>>)
        ensures
            targets(r@) == customs_of_nodes(self@),
    {
        let mut found = Vec::new();
        self.walk_into(&mut found);
        assert(targets(Seq::<Rc<C>>::empty()) =~= Seq::<C>::empty());
        assert(targets(found@) =~= customs_of_nodes(self@));
        found
    }

    /// The elements without `Empty`, with a copy of `element` between each two
    /// neighbours.
    pub fn join(self, element: Element<C>) -> (r: Tokens<C>)
        ensures
            r@ == interleave(without_empty(self@), element@),
    {
        let ghost s = self.elements@;
        let mut rest = self.elements;
        let n = rest.len();
        // Take the elements off the end, so that they can be moved out in order.
        let mut reversed: Vec<Element<C>> = Vec::new();
        while rest.len() > 0
            invariant
                rest@ == s.take(rest@.len() as int),
                reversed@.len() + rest@.len() == n,
                n == s.len(),
                forall|j: int| 0 <= j < reversed@.len() ==> #[trigger] reversed@[j] == s[n - 1 - j],
            decreases rest@.len(),
        {
            let last = rest.pop().unwrap();
            reversed.push(last);
            assert(rest@ =~= s.take(rest@.len() as int));
        }
        let mut out = Tokens::new();
        let mut i: usize = 0;
        while i < n
            invariant
                n == s.len(),
                i <= n,
                reversed@.len() == n - i,
                forall|j: int| 0 <= j < reversed@.len() ==> #[trigger] reversed@[j] == s[n - 1 - j],
                out@ == interleave(without_empty(nodes_of(s.take(i as int))), element@),
            decreases n - i,
        {
            let current = reversed.pop().unwrap();
            proof {
                lemma_nodes_push(s.take(i as int), s[i as int]);
                assert(s.take(i + 1) =~= s.take(i as int).push(s[i as int]));
                assert(nodes_of(s.take(i + 1)).drop_last() =~= nodes_of(s.take(i as int)));
            }
            assert(nodes_of(s.take(i + 1)).last() == current@);
            assert(nodes_of(s.take(i + 1)).drop_last() =~= nodes_of(s.take(i as int)));
            let ghost kept = without_empty(nodes_of(s.take(i as int)));
            proof { lemma_interleave_len(kept, element@); }
            if let Element::Empty = current {
            } else {
                assert(kept.push(current@).drop_last() =~= kept);
                if out.len() > 0 {
                    out.push_element(element.duplicate());
                } else {
                    assert(kept.push(current@) =~= seq![current@]);
                }
                out.push_element(current);
            }
            i = i + 1;
        }
        assert(s.take(n as int) =~= s);
        out
    }
}

impl<C> Tokens<C> {
    /// Build a sub-tree with `builder`, starting from an empty tree, and add
    /// it on a line of its own.
    pub fn push_into<B>(&mut self, builder: B) where B: FnOnce(&mut Tokens<C>)
        requires
            forall|t: &mut Tokens<C>| builder.requires((t,)),
        ensures
            exists|t: &mut Tokens<C>|
                (*t)@ == Seq::<Node<C>>::empty() && builder.ensures((t,), ()) && final(self)@
                    == old(self)@.push(Node::Push(final(t)@)),
    {
        let mut t = Tokens::new();
        builder(&mut t);
        self.push(t);
    }

    /// Build a sub-tree with `builder`, starting from an empty tree, and add
    /// it indented one level deeper.
    pub fn nested_into<B>(&mut self, builder: B) where B: FnOnce(&mut Tokens<C>)
        requires
            forall|t: &mut Tokens<C>| builder.requires((t,)),
        ensures
            exists|t: &mut Tokens<C>|
                (*t)@ == Seq::<Node<C>>::empty() && builder.ensures((t,), ()) && final(self)@
                    == old(self)@.push(Node::Nested(final(t)@)),
    {
        let mut t = Tokens::new();
        builder(&mut t);
        self.nested(t);
    }

    /// Like `push_into`, for a builder that may fail: the builder's result is
    /// returned, and on failure nothing is added.
    pub fn try_push_into<E, B>(&mut self, builder: B) -> (r: Result<(), E>) where
        B: FnOnce(&mut Tokens<C>) -> Result<(), E>,
        requires
            forall|t: &mut Tokens<C>| builder.requires((t,)),
        ensures
            exists|t: &mut Tokens<C>|
                (*t)@ == Seq::<Node<C>>::empty() && builder.ensures((t,), r) && (r is Ok
                    ==> final(self)@ == old(self)@.push(Node::Push(final(t)@))),
            r is Err ==> final(self)@ == old(self)@,
    {
        let mut t = Tokens::new();
        let res = builder(&mut t);
        if res.is_err() {
            return res;
        }
        self.push(t);
        res
    }

    /// Like `nested_into`, for a builder that may fail: the builder's result
    /// is returned, and on failure nothing is added.
    pub fn try_nested_into<E, B>(&mut self, builder: B) -> (r: Result<(), E>) where
        B: FnOnce(&mut Tokens<C>) -> Result<(), E>,
        requires
            forall|t: &mut Tokens<C>| builder.requires((t,)),
        ensures
            exists|t: &mut Tokens<C>|
                (*t)@ == Seq::<Node<C>>::empty() && builder.ensures((t,), r) && (r is Ok
                    ==> final(self)@ == old(self)@.push(Node::Nested(final(t)@))),
            r is Err ==> final(self)@ == old(self)@,
    {
        let mut t = Tokens::new();
        let res = builder(&mut t);
        if res.is_err() {
            return res;
        }
        self.nested(t);
        res
    }
}

impl<C: Custom> Tokens<C> {
    /// Render the tree into `out` at the given nesting level.
    pub fn format(&self, out: &mut Formatter, extra: &C::Extra, level: usize)
        ensures
            final(out)@ == render_nodes(self@, level as nat, extra@, old(out)@),
        decreases self,
    {
        let n = self.elements.len();
        let mut i: usize = 0;
        while i < n
            invariant
                n == self.elements@.len(),
                i <= n,
                out@ == render_nodes(nodes_of(self.elements@.take(i as int)), level as nat, extra@, old(out)@),
            decreases n - i,
        {
            proof {
                assert(decreases_to!(self => self.elements));
                assert(decreases_to!(self.elements => self.elements@));
                lemma_nodes_push(self.elements@.take(i as int), self.elements@[i as int]);
                assert(self.elements@.take(i + 1) =~= self.elements@.take(i as int).push(self.elements@[i as int]));
                assert(nodes_of(self.elements@.take(i + 1)).drop_last() =~= nodes_of(self.elements@.take(i as int)));
            }
            self.elements[i].format(out, extra, level);
            i = i + 1;
        }
        assert(self.elements@.take(n as int) =~= self.elements@);
    }

    /// Render the tree as a whole file, with the language's prologue.
    pub fn to_file_with(self, extra: C::Extra) -> (r: Result<String, FormatError>)
        ensures
            r matches Ok(text) && text@ == rendered_file::<C>(self@, extra@),
    {
        let mut extra = extra;
        let file = C::write_file(self, &mut extra);
        let mut out = Formatter::new();
        file.format(&mut out, &extra, 0);
        let started = out.is_started();
        let mut text = out.into_string();
        if started {
            crate::custom::push_char(&mut text, '\n');
        }
        Ok(text)
    }

    /// Render the tree as it stands.
    pub fn to_string_with(self, extra: C::Extra) -> (r: Result<String, FormatError>)
        ensures
            r matches Ok(text) && text@ == rendered::<C>(self@, extra@),
    {
        let mut out = Formatter::new();
        self.format(&mut out, &extra, 0);
        Ok(out.into_string())
    }

    /// Render the tree as a whole file, starting from the language's default state.
    pub fn to_file(self) -> (r: Result<String, FormatError>)
        ensures
            r matches Ok(text) && text@ == rendered_file::<C>(self@, C::spec_default_extra()),
    {
        let extra = C::default_extra();
        self.to_file_with(extra)
    }

    /// Render the tree, starting from the language's default state.
    pub fn to_string(self) -> (r: Result<String, FormatError>)
        ensures
            r matches Ok(text) && text@ == rendered::<C>(self@, C::spec_default_extra()),
    {
        let extra = C::default_extra();
        self.to_string_with(extra)
    }
}

impl<C> Tokens<C> {
    /// Join on single spaces.
    pub fn join_spacing(self) -> (r: Tokens<C>)
        ensures
            r@ == interleave(without_empty(self@), Node::Spacing),
    {
        self.join(Element::Spacing)
    }

    /// Join on blank lines.
    pub fn join_line_spacing(self) -> (r: Tokens<C>)
        ensures
            r@ == interleave(without_empty(self@), Node::LineSpacing),
    {
        self.join(Element::LineSpacing)
    }
}

impl<C> Clone for Element<C> {
    fn clone(&self) -> (r: Self)
        ensures
            r@ == self@,
    {
        self.duplicate()
    }
}

impl<C> Clone for Tokens<C> {
    fn clone(&self) -> (r: Self)
        ensures
            r@ == self@,
    {
        self.duplicate()
    }
}

impl<C> Default for Tokens<C> {
    fn default() -> (r: Self)
        ensures
            r@ == Seq::<Node<C>>::empty(),
    {
        Tokens::new()
    }
}

} // verus!
