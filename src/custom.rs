//! The contract a target language implements to take part in rendering.
use vstd::prelude::*;

use crate::tokens::{Node, Tokens};

verus! {

/// A target language: how its items are printed, how it quotes strings and
/// how it assembles a whole file.
pub trait Custom: Sized {
    /// Per-render state threaded through formatting (imports, package).
    type Extra: View;

    /// The text of an item at the given nesting level.
    spec fn spec_format(&self, level: nat, extra: <Self::Extra as View>::V) -> Seq<char>;

    /// Render one item at the given nesting level.
    fn format(&self, level: usize, extra: &Self::Extra) -> (r: String)
        ensures
            r@ == self.spec_format(level as nat, extra@),
    ;

    /// The quoted literal for a raw string.
    spec fn spec_quote(input: Seq<char>) -> Seq<char>;

    /// Quote and escape a raw string as a literal of the language.
    fn quote_string(input: &str) -> (r: String)
        ensures
            r@ == Self::spec_quote(input@),
    ;

    /// The whole-file tree for a body, with the state it leaves behind.
    spec fn spec_file(body: Seq<Node<Self>>, extra: <Self::Extra as View>::V) -> (
        Seq<Node<Self>>,
        <Self::Extra as View>::V,
    );

    /// Assemble a whole file (prologue and body) as a tree.
    fn write_file(body: Tokens<Self>, extra: &mut Self::Extra) -> (r: Tokens<Self>)
        ensures
            (r@, final(extra)@) == Self::spec_file(body@, old(extra)@),
    ;

    /// The state a render starts from when none is given.
    spec fn spec_default_extra() -> <Self::Extra as View>::V;

    /// A fresh per-render state.
    fn default_extra() -> (r: Self::Extra)
        ensures
            r@ == Self::spec_default_extra(),
    ;
}

/// Escape text the way most C-like languages do in double-quoted literals.
pub open spec fn c_like_escape(c: char) -> Seq<char> {
    if c == '\t' {
        seq!['\\', 't']
    } else if c == '\n' {
        seq!['\\', 'n']
    } else if c == '\r' {
        seq!['\\', 'r']
    } else if c == '\'' {
        seq!['\\', '\'']
    } else if c == '"' {
        seq!['\\', '"']
    } else if c == '\\' {
        seq!['\\', '\\']
    } else {
        seq![c]
    }
}

/// The escaped form of a whole string, one character at a time.
pub open spec fn c_like_escaped(s: Seq<char>) -> Seq<char>
    decreases s.len(),
{
    if s.len() == 0 {
        Seq::empty()
    } else {
        c_like_escaped(s.drop_last()) + c_like_escape(s.last())
    }
}

/// Double quotes around the escaped text.
pub open spec fn c_like_quoted(s: Seq<char>) -> Seq<char> {
    seq!['"'] + c_like_escaped(s) + seq!['"']
}

/// Relies on `String::push`: the character is added at the end.
#[verifier::external_body]
pub(crate) fn push_char(s: &mut String, c: char)
    ensures
        final(s)@ == old(s)@.push(c),
{
    s.push(c);
}

fn push_c_like_escape(out: &mut String, c: char)
    ensures
        final(out)@ == old(out)@ + c_like_escape(c),
{
    if c == '\t' {
        push_char(out, '\\');
        push_char(out, 't');
    } else if c == '\n' {
        push_char(out, '\\');
        push_char(out, 'n');
    } else if c == '\r' {
        push_char(out, '\\');
        push_char(out, 'r');
    } else if c == '\'' || c == '"' || c == '\\' {
        push_char(out, '\\');
        push_char(out, c);
    } else {
        push_char(out, c);
    }
}

/// Quote a string with the escapes of `c_like_escape`.
pub fn quote_c_like(input: &str) -> (r: String)
    ensures
        r@ == c_like_quoted(input@),
{
    broadcast use vstd::string::group_string_axioms;
    let mut out = String::new();
    push_char(&mut out, '"');
    for c in it: input.chars()
        invariant
            it.seq() == input@,
            out@ == seq!['"'] + c_like_escaped(input@.take(it.index() as int)),
    {
        assert(input@.take(it.index() + 1).drop_last() =~= input@.take(it.index() as int));
        assert(c == input@[it.index() as int]);
        push_c_like_escape(&mut out, c);
    }
    push_char(&mut out, '"');
    assert(input@.take(input@.len() as int) =~= input@);
    out
}

} // verus!

verus! {

/// A language with no items of its own; strings are quoted C-style.
impl Custom for () {
    type Extra = ();

    open spec fn spec_format(&self, level: nat, extra: ()) -> Seq<char> {
        Seq::empty()
    }

    fn format(&self, level: usize, extra: &()) -> (r: String) {
        String::new()
    }

    open spec fn spec_quote(input: Seq<char>) -> Seq<char> {
        c_like_quoted(input)
    }

    fn quote_string(input: &str) -> (r: String) {
        quote_c_like(input)
    }

    open spec fn spec_file(body: Seq<Node<()>>, extra: ()) -> (Seq<Node<()>>, ()) {
        (body, extra)
    }

    fn write_file(body: Tokens<()>, extra: &mut ()) -> (r: Tokens<()>) {
        body
    }

    open spec fn spec_default_extra() -> () {
        ()
    }

    fn default_extra() -> (r: ()) {
    }
}

} // verus!
