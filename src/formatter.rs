//! The whitespace state machine that turns a token tree into text.
//!
//! Structural directives never write anything by themselves: they raise a
//! pending request (space, line break, blank line) which the next piece of
//! text settles. Requests never add up: the strongest one wins. Requests left
//! at the end of the output are dropped, and so are requests before the first
//! piece of text, which instead starts with its indentation.
use vstd::prelude::*;

use crate::custom::{push_char, Custom};
use crate::tokens::Node;

verus! {

/// Whitespace requested before the next piece of text.
#[derive(Clone, Copy, Debug, PartialEq, Eq)]
pub enum Pending {
    /// Text follows directly.
    Nothing,
    /// One space.
    Space,
    /// A line break, then the current indentation.
    Line,
    /// A blank line, then the current indentation.
    Blank,
}

/// How strong a request is: a stronger one replaces a weaker one.
pub open spec fn rank(p: Pending) -> nat {
    match p {
        Pending::Nothing => 0,
        Pending::Space => 1,
        Pending::Line => 2,
        Pending::Blank => 3,
    }
}

/// The state of a render: the text so far, whether any text was written,
/// and what is requested before the next text.
pub struct RenderState {
    pub out: Seq<char>,
    pub started: bool,
    pub pending: Pending,
}

/// Nothing written, nothing requested.
pub open spec fn start() -> RenderState {
    RenderState { out: Seq::empty(), started: false, pending: Pending::Nothing }
}

/// Record a request; the stronger of the old and the new one stays.
pub open spec fn raise(st: RenderState, p: Pending) -> RenderState {
    RenderState { pending: if rank(p) > rank(st.pending) { p } else { st.pending }, ..st }
}

/// Two spaces for each level.
pub open spec fn indentation(level: nat) -> Seq<char>
    decreases level,
{
    if level == 0 {
        Seq::empty()
    } else {
        indentation((level - 1) as nat) + seq![' ', ' ']
    }
}

/// What goes between the text so far and the next piece of text.
pub open spec fn gap(st: RenderState, level: nat) -> Seq<char> {
    if !st.started {
        indentation(level)
    } else {
        match st.pending {
            Pending::Nothing => Seq::empty(),
            Pending::Space => seq![' '],
            Pending::Line => seq!['\n'] + indentation(level),
            Pending::Blank => seq!['\n', '\n'] + indentation(level),
        }
    }
}

/// Write a piece of text at the given level. Empty text changes nothing.
pub open spec fn emit(st: RenderState, text: Seq<char>, level: nat) -> RenderState {
    if text.len() == 0 {
        st
    } else {
        RenderState { out: st.out + gap(st, level) + text, started: true, pending: Pending::Nothing }
    }
}

/// One level deeper; levels do not go past `usize::MAX`, which no tree held in
/// memory reaches.
pub open spec fn deeper(level: nat) -> nat {
    if level < usize::MAX {
        level + 1
    } else {
        level
    }
}

/// Render a sequence of nodes, left to right.
pub open spec fn render_nodes<C: Custom>(
    s: Seq<Node<C>>,
    level: nat,
    extra: <C::Extra as View>::V,
    st: RenderState,
) -> RenderState
    decreases s,
{
    if s.len() == 0 {
        st
    } else {
        render_node(s.last(), level, extra, render_nodes(s.drop_last(), level, extra, st))
    }
}

/// Render one node.
pub open spec fn render_node<C: Custom>(
    e: Node<C>,
    level: nat,
    extra: <C::Extra as View>::V,
    st: RenderState,
) -> RenderState
    decreases e,
{
    match e {
        Node::Literal(text) => emit(st, text, level),
        Node::Quoted(text) => emit(st, C::spec_quote(text), level),
        Node::Custom(item) => emit(st, item.spec_format(level, extra), level),
        Node::Registered(_) => st,
        Node::Empty => st,
        Node::Spacing => raise(st, Pending::Space),
        Node::PushSpacing => raise(st, Pending::Line),
        Node::LineSpacing => raise(st, Pending::Blank),
        Node::Append(s) => render_nodes(s, level, extra, st),
        Node::Push(s) => render_nodes(s, level, extra, raise(st, Pending::Line)),
        Node::Nested(s) => raise(
            render_nodes(s, deeper(level), extra, raise(st, Pending::Line)),
            Pending::Line,
        ),
    }
}

/// The text of a whole tree rendered from the start at level zero.
pub open spec fn rendered<C: Custom>(s: Seq<Node<C>>, extra: <C::Extra as View>::V) -> Seq<char> {
    render_nodes(s, 0, extra, start()).out
}

/// The text of a whole file: the language's file tree, rendered, and ended
/// with a line break unless nothing was written.
pub open spec fn rendered_file<C: Custom>(body: Seq<Node<C>>, extra: <C::Extra as View>::V) -> Seq<
    char,
> {
    let (file, extra2) = C::spec_file(body, extra);
    let st = render_nodes(file, 0, extra2, start());
    if st.started {
        st.out.push('\n')
    } else {
        st.out
    }
}

/// The sink that a render writes to, with its pending whitespace.
pub struct Formatter {
    out: String,
    started: bool,
    pending: Pending,
}

impl View for Formatter {
    type V = RenderState;

    closed spec fn view(&self) -> RenderState {
        RenderState { out: self.out@, started: self.started, pending: self.pending }
    }
}

impl Formatter {
    /// An empty sink.
    pub fn new() -> (r: Formatter)
        ensures
            r@ == start(),
    {
        Formatter { out: String::new(), started: false, pending: Pending::Nothing }
    }

    /// The text written so far.
    pub fn into_string(self) -> (r: String)
        ensures
            r@ == self@.out,
    {
        self.out
    }

    /// Whether any text was written.
    pub fn is_started(&self) -> (r: bool)
        ensures
            r == self@.started,
    {
        self.started
    }

    /// Ask for whitespace before the next text.
    pub fn request(&mut self, p: Pending)
        ensures
            final(self)@ == raise(old(self)@, p),
    {
        let stronger = match (p, self.pending) {
            (Pending::Blank, Pending::Blank) => false,
            (Pending::Blank, _) => true,
            (Pending::Line, Pending::Nothing) | (Pending::Line, Pending::Space) => true,
            (Pending::Space, Pending::Nothing) => true,
            _ => false,
        };
        if stronger {
            self.pending = p;
        }
    }

    fn write_indentation(&mut self, level: usize)
        ensures
            final(self)@ == (RenderState { out: old(self)@.out + indentation(level as nat), ..old(self)@ }),
    {
        let ghost base = self.out@;
        let mut i: usize = 0;
        while i < level
            invariant
                i <= level,
                self.out@ == base + indentation(i as nat),
                self.started == old(self).started,
                self.pending == old(self).pending,
            decreases level - i,
        {
            push_char(&mut self.out, ' ');
            push_char(&mut self.out, ' ');
            i = i + 1;
            assert(self.out@ =~= base + indentation(i as nat));
        }
    }

    /// Write a piece of text at the given level, settling what is pending.
    pub fn write_text(&mut self, text: &str, level: usize)
        ensures
            final(self)@ == emit(old(self)@, text@, level as nat),
    {
        if text.is_empty() {
            return;
        }
        if self.started {
            match self.pending {
                Pending::Nothing => {},
                Pending::Space => {
                    push_char(&mut self.out, ' ');
                },
                Pending::Line => {
                    push_char(&mut self.out, '\n');
                    self.write_indentation(level);
                },
                Pending::Blank => {
                    push_char(&mut self.out, '\n');
                    push_char(&mut self.out, '\n');
                    self.write_indentation(level);
                },
            }
        } else {
            self.write_indentation(level);
        }
        self.out.append(text);
        self.started = true;
        self.pending = Pending::Nothing;
        assert(self@.out =~= old(self)@.out + gap(old(self)@, level as nat) + text@);
    }
}

} // verus!
