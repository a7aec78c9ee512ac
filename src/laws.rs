//! Properties that relate the operations of the library.
use vstd::prelude::*;

use crate::custom::Custom;
use crate::formatter::{indentation, raise, render_node, render_nodes, rendered, Pending, RenderState};
use crate::tokens::{appended, interleave, lemma_interleave_shape, Node};

verus! {

/// Rendering is deterministic: equal trees with equal state render to the
/// same text, every time.
pub proof fn lemma_render_deterministic<C: Custom>(
    a: Seq<Node<C>>,
    b: Seq<Node<C>>,
    extra: <C::Extra as View>::V,
)
    requires
        a == b,
    ensures
        rendered::<C>(a, extra) == rendered::<C>(b, extra),
{
}

/// Appending `Empty` changes neither whether a tree is empty nor its text.
pub proof fn lemma_append_empty_unchanged<C: Custom>(s: Seq<Node<C>>, extra: <C::Extra as View>::V)
    ensures
        (appended(s, Node::Empty).len() == 0) == (s.len() == 0),
        rendered::<C>(appended(s, Node::Empty), extra) == rendered::<C>(s, extra),
{
}

/// Joining never puts a separator next to a lone node or into nothing, and
/// puts exactly one between each two neighbours of a longer sequence.
pub proof fn lemma_join_separators<C>(s: Seq<Node<C>>, sep: Node<C>)
    ensures
        s.len() <= 1 ==> interleave(s, sep) == s,
        s.len() > 1 ==> interleave(s, sep).len() == 2 * s.len() - 1,
        forall|i: int| 0 <= i < s.len() ==> #[trigger] interleave(s, sep)[2 * i] == s[i],
        forall|i: int| 0 <= i < s.len() - 1 ==> #[trigger] interleave(s, sep)[2 * i + 1] == sep,
{
    lemma_interleave_shape(s, sep);
}

/// The line break that comes before text when a line break (or blank line)
/// is pending.
pub open spec fn break_before(st: RenderState) -> Seq<char> {
    if !st.started {
        Seq::empty()
    } else if st.pending is Blank {
        seq!['\n', '\n']
    } else {
        seq!['\n']
    }
}

/// Indentation always unwinds: text that follows a nested block, whatever
/// the block holds, starts a new line at the indentation the block started
/// from.
pub proof fn lemma_nested_unwinds<C: Custom>(
    inner: Seq<Node<C>>,
    text: Seq<char>,
    level: nat,
    extra: <C::Extra as View>::V,
    st: RenderState,
)
    requires
        text.len() > 0,
    ensures
        ({
            let after = render_node(Node::<C>::Nested(inner), level, extra, st);
            render_node(Node::<C>::Literal(text), level, extra, after).out == after.out + break_before(
                after,
            ) + indentation(level) + text
        }),
{
    let after = render_node(Node::<C>::Nested(inner), level, extra, st);
    assert(after.pending is Line || after.pending is Blank);
}

/// A pushed literal always starts a line of its own, even right after other
/// text with no space requested.
pub proof fn lemma_push_starts_line<C: Custom>(
    text: Seq<char>,
    level: nat,
    extra: <C::Extra as View>::V,
    st: RenderState,
)
    requires
        text.len() > 0,
        st.started,
    ensures
        ({
            let r = render_node(Node::Push(seq![Node::<C>::Literal(text)]), level, extra, st);
            r.out == st.out + break_before(raise(st, Pending::Line)) + indentation(level) + text
        }),
{
    let s = seq![Node::<C>::Literal(text)];
    assert(s.drop_last() =~= Seq::<Node<C>>::empty());
    assert(s.last() == Node::<C>::Literal(text));
    let raised = raise(st, Pending::Line);
    assert(raised.pending is Line || raised.pending is Blank);
    assert(render_nodes(s.drop_last(), level, extra, raised) == raised);
    assert(render_nodes(s, level, extra, raised) == render_node(Node::<C>::Literal(text), level, extra, raised));
}

} // verus!
