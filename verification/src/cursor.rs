//! Spans, cursors (tokens with their place in the source) and sinks that take cursors.
use vstd::prelude::*;
use vstd::utf8::*;

use crate::token::{AssociatedWhitespaceRules, Kind, Token};

verus! {

/// A stretch of the source, in bytes, from `start` up to but not including `end`.
#[derive(Debug, Clone, Copy, PartialEq, Eq, PartialOrd, Ord, Hash, Structural)]
pub struct Span {
    pub start: u32,
    pub end: u32,
}

impl Span {
    /// The smallest span that reaches over both.
    pub open spec fn hull(self, other: Self) -> Self {
        Span {
            start: if self.start <= other.start { self.start } else { other.start },
            end: if self.end >= other.end { self.end } else { other.end },
        }
    }

    /// Whether every byte of the other span lies within this one.
    pub open spec fn covers(self, other: Self) -> bool {
        self.start <= other.start && other.end <= self.end
    }

    pub fn new(start: u32, end: u32) -> (s: Self)
        ensures
            s == (Span { start, end }),
    {
        Span { start, end }
    }
}

impl std::ops::Add for Span {
    type Output = Span;

    /// The smallest span that reaches over both.
    fn add(self, rhs: Span) -> (r: Span) {
        Span {
            start: if self.start <= rhs.start { self.start } else { rhs.start },
            end: if self.end >= rhs.end { self.end } else { rhs.end },
        }
    }
}

impl vstd::std_specs::ops::AddSpecImpl for Span {
    open spec fn obeys_add_spec() -> bool {
        true
    }

    open spec fn add_req(self, rhs: Span) -> bool {
        true
    }

    open spec fn add_spec(self, rhs: Span) -> Span {
        self.hull(rhs)
    }
}

/// A token together with the stretch of source it was read from.
#[derive(Debug, Clone, Copy, PartialEq, Eq, PartialOrd, Ord, Hash)]
pub struct Cursor {
    pub span: Span,
    pub token: Token,
}

/// Whether the span marks out whole characters of the source.
pub open spec fn readable(source: Seq<char>, span: Span) -> bool {
    let bytes = encode_utf8(source);
    &&& span.start <= span.end <= bytes.len()
    &&& is_char_boundary(bytes, span.start as int)
    &&& is_char_boundary(bytes, span.end as int)
}

/// The characters of the source that the span marks out.
pub open spec fn text_at(source: Seq<char>, span: Span) -> Seq<char> {
    decode_utf8(encode_utf8(source).subrange(span.start as int, span.end as int))
}

impl Cursor {
    /// The kind of the token.
    pub open spec fn kind(self) -> Kind {
        self.token.kind
    }

    /// The cursor with the given whitespace rules in place of its own.
    pub open spec fn ruled(self, rules: AssociatedWhitespaceRules) -> Self {
        Cursor { token: self.token.ruled(rules), ..self }
    }

    /// Whether two cursors mean the same, wherever they stand.
    pub open spec fn same(self, other: Self) -> bool {
        self.token.same(other.token)
    }

    pub fn new(span: Span, token: Token) -> (c: Self)
        ensures
            c == (Cursor { span, token }),
    {
        Cursor { span, token }
    }

    /// The part of the source that this cursor was read from.
    pub fn str_slice<'s>(&self, source: &'s str) -> (text: &'s str)
        requires
            readable(source@, self.span),
        ensures
            text@ == text_at(source@, self.span),
    {
        let start: usize = self.span.start as usize;
        let end: usize = self.span.end as usize;
        let (upto, _) = source.split_at(end);
        proof {
            let bytes = encode_utf8(source@);
            encode_utf8_valid_utf8(source@);
            encode_utf8_valid_utf8(upto@);
            lemma_boundary_of_prefix(bytes, end as int, start as int);
        }
        let (_, text) = upto.split_at(start);
        proof {
            let bytes = encode_utf8(source@);
            assert(encode_utf8(upto@) =~= bytes.subrange(0, end as int));
            assert(encode_utf8(text@) =~= bytes.subrange(start as int, end as int));
            encode_utf8_decode_utf8(text@);
        }
        text
    }

    /// Hands this cursor to the sink.
    pub fn to_cursors<S: CursorSink>(&self, s: &mut S)
        ensures
            final(s).received() == old(s).received().push(*self),
    {
        s.append(*self);
    }

    /// The stretch of source of this cursor.
    pub fn to_span(&self) -> (s: Span)
        ensures
            s == self.span,
    {
        self.span
    }

    /// Whether two cursors mean the same, wherever they stand.
    pub fn semantic_eq(&self, other: &Self) -> (b: bool)
        ensures
            b == self.same(*other),
            b <==> self.token.kind == other.token.kind && self.token.delim == other.token.delim
                && self.token.meaning == other.token.meaning,
    {
        self.token.semantic_eq(&other.token)
    }

    /// The cursor with the given whitespace rules in place of its own.
    pub fn with_associated_whitespace(&self, rules: AssociatedWhitespaceRules) -> (c: Self)
        ensures
            c == self.ruled(rules),
            c.span == self.span,
            c.token.kind == self.token.kind && c.token.delim == self.token.delim
                && c.token.meaning == self.token.meaning,
            c.token.whitespace == rules,
    {
        Cursor { span: self.span, token: self.token.with_associated_whitespace(rules) }
    }
}

/// A character boundary of a text is a boundary of each longer prefix of it.
proof fn lemma_boundary_of_prefix(bytes: Seq<u8>, end: int, at: int)
    requires
        valid_utf8(bytes),
        is_char_boundary(bytes, end),
        is_char_boundary(bytes, at),
        0 <= at <= end <= bytes.len(),
    ensures
        is_char_boundary(bytes.subrange(0, end), at),
{
    let prefix = bytes.subrange(0, end);
    valid_utf8_split(bytes, end);
    if at == end {
        is_char_boundary_start_end_of_seq(prefix);
    } else {
        is_char_boundary_iff_not_is_continuation_byte(bytes, at);
        is_char_boundary_iff_not_is_continuation_byte(prefix, at);
    }
}

/// Takes cursors one at a time, in the order in which they are to be written.
pub trait CursorSink {
    /// Every cursor taken so far, oldest first. A sink outside of verified code need not say.
    open spec fn received(&self) -> Seq<Cursor> {
        arbitrary()
    }

    /// Takes one more cursor.
    fn append(&mut self, c: Cursor)
        ensures
            final(self).received() == old(self).received().push(c),
    ;
}

impl CursorSink for Vec<Cursor> {
    open spec fn received(&self) -> Seq<Cursor> {
        self@
    }

    fn append(&mut self, c: Cursor)
        ensures
            final(self)@ == old(self)@.push(c),
    {
        self.push(c);
    }
}

/// A number, such as `2`.
#[derive(Debug, Clone, Copy, PartialEq, Eq, PartialOrd, Ord, Hash)]
pub struct Number(pub Cursor);

/// A number with a unit or a percent sign, such as `5px`.
#[derive(Debug, Clone, Copy, PartialEq, Eq, PartialOrd, Ord, Hash)]
pub struct Dimension(pub Cursor);

/// An identifier, such as `pi`.
#[derive(Debug, Clone, Copy, PartialEq, Eq, PartialOrd, Ord, Hash)]
pub struct Ident(pub Cursor);

/// A function name with its opening parenthesis, such as `calc(`.
#[derive(Debug, Clone, Copy, PartialEq, Eq, PartialOrd, Ord, Hash)]
pub struct Function(pub Cursor);

/// A single character that is no other token, such as `+`.
#[derive(Debug, Clone, Copy, PartialEq, Eq, PartialOrd, Ord, Hash)]
pub struct Delim(pub Cursor);

/// A `,`.
#[derive(Debug, Clone, Copy, PartialEq, Eq, PartialOrd, Ord, Hash)]
pub struct Comma(pub Cursor);

/// A `(` on its own.
#[derive(Debug, Clone, Copy, PartialEq, Eq, PartialOrd, Ord, Hash)]
pub struct LeftParen(pub Cursor);

/// A `)`.
#[derive(Debug, Clone, Copy, PartialEq, Eq, PartialOrd, Ord, Hash)]
pub struct RightParen(pub Cursor);

} // verus!
