//! A parser: a position in the cursors of one source.
use vstd::prelude::*;

use crate::cursor::{Cursor, Span};
use crate::laws::trivia::lemma_significant_named;
use crate::token::{AssociatedWhitespaceRules, Kind, Token};

verus! {

/// The arena that the nodes of a tree live in: `bumpalo::Bump`. Nothing is claimed of it.
#[verifier::external_type_specification]
#[verifier::external_body]
pub struct ExBump<const MIN_ALIGN: usize>(bumpalo::Bump<MIN_ALIGN>);

/// What went wrong: a cursor that nothing expected stands at `cursor`.
#[derive(Debug, Clone, Copy, PartialEq, Eq, PartialOrd, Ord, Hash)]
pub struct Diagnostic {
    pub cursor: Cursor,
}

impl Diagnostic {
    /// The cursor does not fit where it stands.
    pub fn unexpected(cursor: Cursor) -> (d: Self)
        ensures
            d.cursor == cursor,
    {
        Diagnostic { cursor }
    }
}

/// The cursors that carry meaning, in order: those that are neither whitespace nor comments.
pub open spec fn significant(cursors: Seq<Cursor>) -> Seq<Cursor> {
    cursors.filter(|c: Cursor| !c.kind().spec_is_trivia())
}

/// Whether the source can be read wherever a function name stands.
pub open spec fn names_readable(source: Seq<char>, cursors: Seq<Cursor>) -> bool {
    forall|i: int|
        0 <= i < cursors.len() && (#[trigger] cursors[i]).kind() == Kind::Function
            ==> crate::cursor::readable(source, cursors[i].span)
}

/// The cursor that stands for the end of the input: an empty one, behind the last.
pub open spec fn end_of(cursors: Seq<Cursor>) -> Cursor {
    let at = if cursors.len() == 0 { 0u32 } else { cursors.last().span.end };
    Cursor {
        span: Span { start: at, end: at },
        token: Token {
            kind: Kind::Eof,
            delim: None,
            meaning: 0,
            whitespace: AssociatedWhitespaceRules::spec_none(),
        },
    }
}

/// The first of the cursors, or the end where there is none.
pub open spec fn front(cursors: Seq<Cursor>, end: Cursor) -> Cursor {
    if cursors.len() > 0 {
        cursors[0]
    } else {
        end
    }
}

/// A position in the cursors of one source.
pub struct Parser<'a> {
    source_text: &'a str,
    cursors: Vec<Cursor>,
    position: usize,
    bump: &'a bumpalo::Bump,
}

/// Dropping cursors that carry no meaning from the front changes nothing.
proof fn lemma_significant_front(cursors: Seq<Cursor>, at: int)
    requires
        0 <= at < cursors.len(),
    ensures
        cursors[at].kind().spec_is_trivia() ==> significant(cursors.skip(at)) == significant(
            cursors.skip(at + 1),
        ),
        !cursors[at].kind().spec_is_trivia() ==> significant(cursors.skip(at)) == seq![cursors[at]]
            + significant(cursors.skip(at + 1)),
{
    let keep = |c: Cursor| !c.kind().spec_is_trivia();
    let one = seq![cursors[at]];
    assert(cursors.skip(at) =~= one + cursors.skip(at + 1));
    Seq::filter_distributes_over_add(one, cursors.skip(at + 1), keep);
    assert(one.drop_last() =~= Seq::<Cursor>::empty());
    reveal_with_fuel(Seq::filter, 2);
    assert(one.filter(keep) =~= if keep(cursors[at]) {
        one
    } else {
        Seq::empty()
    });
    assert(Seq::<Cursor>::empty() + significant(cursors.skip(at + 1)) =~= significant(
        cursors.skip(at + 1),
    ));
}

/// The first place, at or behind `from`, that holds a cursor with meaning.
fn next_significant(cursors: &Vec<Cursor>, from: usize) -> (at: usize)
    requires
        from <= cursors@.len(),
    ensures
        from <= at <= cursors@.len(),
        significant(cursors@.skip(at as int)) == significant(cursors@.skip(from as int)),
        at < cursors@.len() ==> !cursors@[at as int].kind().spec_is_trivia(),
{
    let mut at: usize = from;
    while at < cursors.len() && cursors[at].token.kind.is_trivia()
        invariant
            from <= at <= cursors@.len(),
            significant(cursors@.skip(at as int)) == significant(cursors@.skip(from as int)),
        decreases cursors@.len() - at,
    {
        proof {
            lemma_significant_front(cursors@, at as int);
        }
        at = at + 1;
    }
    at
}

impl<'a> Parser<'a> {
    #[verifier::type_invariant]
    spec fn in_order(self) -> bool {
        &&& self.position <= self.cursors@.len()
        &&& self.position < self.cursors@.len()
            ==> !self.cursors@[self.position as int].kind().spec_is_trivia()
        &&& names_readable(self.source_text@, self.cursors@)
    }

    /// The text that the cursors were read from.
    pub closed spec fn source(self) -> Seq<char> {
        self.source_text@
    }

    /// The cursors with meaning that are still to come.
    pub closed spec fn rest(self) -> Seq<Cursor> {
        significant(self.cursors@.skip(self.position as int))
    }

    /// The cursor that is seen once nothing is left.
    pub closed spec fn end(self) -> Cursor {
        end_of(self.cursors@)
    }

    /// The arena that nodes are put into.
    pub closed spec fn arena(self) -> &'a bumpalo::Bump {
        self.bump
    }

    /// Whether the other parser stands in the same input, perhaps elsewhere, and puts its nodes
    /// into the same arena.
    pub open spec fn reads_like(self, other: Self) -> bool {
        &&& self.source() == other.source()
        &&& self.end() == other.end()
        &&& self.arena() == other.arena()
    }

    /// A parser at the front of the cursors of a source. Nodes are put into the arena.
    pub fn new(bump: &'a bumpalo::Bump, source_text: &'a str, cursors: Vec<Cursor>) -> (p: Self)
        requires
            names_readable(source_text@, cursors@),
        ensures
            p.source() == source_text@,
            p.rest() == significant(cursors@),
            p.rest() == cursors@.filter(
                |c: Cursor| c.token.kind != Kind::Whitespace && c.token.kind != Kind::Comment,
            ),
            p.end() == end_of(cursors@),
            p.end().token.kind == Kind::Eof,
            p.end().span.start == p.end().span.end,
            p.end().span.end == (if cursors@.len() == 0 {
                0
            } else {
                cursors@.last().span.end
            }),
            p.arena() == bump,
    {
        let position: usize = next_significant(&cursors, 0);
        assert(cursors@.skip(0) =~= cursors@);
        proof {
            lemma_significant_named(cursors@);
        }
        Parser { source_text, cursors, position, bump }
    }

    /// The arena that nodes are put into.
    pub fn bump(&self) -> (b: &'a bumpalo::Bump)
        ensures
            b == self.arena(),
    {
        self.bump
    }

    /// The text that the cursors were read from.
    pub fn source_text(&self) -> (s: &'a str)
        ensures
            s@ == self.source(),
    {
        self.source_text
    }

    /// Whether no cursor with meaning is left.
    pub fn at_end(&self) -> (b: bool)
        ensures
            b == (self.rest().len() == 0),
    {
        proof {
            use_type_invariant(self);
            self.lemma_rest();
        }
        self.position == self.cursors.len()
    }

    /// The cursor with meaning that comes next, or the end of the input.
    pub fn peek(&self) -> (c: Cursor)
        ensures
            c == front(self.rest(), self.end()),
            self.rest().len() > 0 ==> c == self.rest()[0],
            self.rest().len() == 0 ==> c == self.end(),
            c.kind() == Kind::Function ==> crate::cursor::readable(self.source(), c.span),
            self.rest().len() == 0 ==> c.kind() == Kind::Eof,
            self.rest().len() <= usize::MAX,
    {
        proof {
            use_type_invariant(self);
            self.lemma_rest();
        }
        if self.position < self.cursors.len() {
            self.cursors[self.position]
        } else {
            let n: usize = self.cursors.len();
            let at: u32 = if n == 0 {
                0
            } else {
                self.cursors[n - 1].span.end
            };
            Cursor { span: Span { start: at, end: at }, token: Token::new(Kind::Eof, 0) }
        }
    }

    /// Passes over the cursor that comes next, and gives it back. At the end nothing moves.
    pub fn next(&mut self) -> (c: Cursor)
        ensures
            c == front(old(self).rest(), old(self).end()),
            old(self).rest().len() > 0 ==> c == old(self).rest()[0],
            final(self).rest() == (if old(self).rest().len() > 0 {
                old(self).rest().drop_first()
            } else {
                old(self).rest()
            }),
            final(self).reads_like(*old(self)),
    {
        proof {
            use_type_invariant(&*self);
            self.lemma_rest();
        }
        let c = self.peek();
        if self.position < self.cursors.len() {
            let position: usize = next_significant(&self.cursors, self.position + 1);
            proof {
                lemma_significant_front(self.cursors@, self.position as int);
                assert(self.rest().drop_first() =~= significant(
                    self.cursors@.skip(self.position + 1),
                ));
            }
            self.position = position;
        }
        c
    }

    /// Passes over the next cursor if it has the given kind. It is unexpected if it has another.
    pub fn expect(&mut self, kind: Kind) -> (r: Result<Cursor, Diagnostic>)
        requires
            kind != Kind::Eof,
        ensures
            final(self).reads_like(*old(self)),
            match r {
                Ok(c) => {
                    &&& crate::grammar::starts_with(old(self).rest(), kind)
                    &&& old(self).rest().len() > 0
                    &&& c == old(self).rest()[0]
                    &&& c.token.kind == kind
                    &&& final(self).rest() == old(self).rest().drop_first()
                },
                Err(d) => {
                    &&& old(self).rest().len() > 0 ==> d.cursor == old(self).rest()[0]
                        && d.cursor.token.kind != kind
                    &&& !crate::grammar::starts_with(old(self).rest(), kind)
                    &&& d.cursor == front(old(self).rest(), old(self).end())
                    &&& final(self).rest() == old(self).rest()
                },
            },
    {
        let c = self.peek();
        if c.token.kind == kind {
            Ok(self.next())
        } else {
            Err(Diagnostic::unexpected(c))
        }
    }

    proof fn lemma_rest(self)
        requires
            self.in_order(),
        ensures
            self.position < self.cursors@.len() ==> {
                &&& self.rest().len() > 0
                &&& self.rest()[0] == self.cursors@[self.position as int]
            },
            self.position == self.cursors@.len() ==> self.rest().len() == 0,
    {
        if self.position < self.cursors@.len() {
            lemma_significant_front(self.cursors@, self.position as int);
        } else {
            assert(self.cursors@.skip(self.position as int) =~= Seq::<Cursor>::empty());
            reveal_with_fuel(Seq::filter, 1);
        }
    }
}

} // verus!
