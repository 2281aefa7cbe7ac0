//! Functions that are no math functions, kept token by token.
use vstd::prelude::*;

use crate::cursor::{Cursor, CursorSink, Function, RightParen, Span};
use crate::grammar::Outcome;
use crate::parser::{Diagnostic, Parser};
use crate::token::Kind;
use crate::tree::BlockTree;

verus! {

/// A function call such as `var(--x)`: its name, the tokens between its parentheses, which may
/// hold brackets of any sort as long as they pair up, and the parenthesis that closes it.
#[derive(Debug, PartialEq, Eq, PartialOrd, Ord, Hash)]
pub struct FunctionBlock {
    pub name: Function,
    pub params: Vec<Cursor>,
    pub close: RightParen,
}

impl View for FunctionBlock {
    type V = BlockTree;

    open spec fn view(&self) -> BlockTree {
        BlockTree { name: self.name.0, params: self.params@, close: self.close.0 }
    }
}

impl Clone for FunctionBlock {
    fn clone(&self) -> (r: Self)
        ensures
            r@ == self@,
    {
        let mut params: Vec<Cursor> = Vec::new();
        let mut i: usize = 0;
        while i < self.params.len()
            invariant
                i <= self.params@.len(),
                params@ == self.params@.take(i as int),
            decreases self.params@.len() - i,
        {
            assert(self.params@.take(i + 1) =~= self.params@.take(i as int).push(
                self.params@[i as int],
            ));
            params.push(self.params[i]);
            i = i + 1;
        }
        assert(self.params@.take(i as int) =~= self.params@);
        FunctionBlock { name: self.name, params, close: self.close }
    }
}

/// The kind that closes what a kind opens.
fn closer(kind: Kind) -> (c: Option<Kind>)
    ensures
        c == crate::grammar::closer_of(kind),
{
    match kind {
        Kind::Function => Some(Kind::RightParen),
        Kind::LeftParen => Some(Kind::RightParen),
        Kind::LeftSquare => Some(Kind::RightSquare),
        Kind::LeftCurly => Some(Kind::RightCurly),
        _ => None,
    }
}

/// Whether a kind closes something, or ends the input.
fn closes(kind: Kind) -> (b: bool)
    ensures
        b == crate::grammar::is_closer(kind),
{
    kind == Kind::RightParen || kind == Kind::RightSquare || kind == Kind::RightCurly || kind
        == Kind::Eof
}

impl FunctionBlock {
    /// Reads a function with everything up to the parenthesis that closes it.
    pub fn parse<'a>(p: &mut Parser<'a>) -> (r: Result<Self, Diagnostic>)
        ensures
            final(p).reads_like(*old(p)),
            match (r, crate::grammar::block_of(old(p).rest())) {
                (Ok(b), Outcome::Read(t, left)) => {
                    &&& b@ == t
                    &&& final(p).rest() == left
                    &&& left.len() < old(p).rest().len()
                },
                (Err(d), Outcome::Stuck(left)) => {
                    &&& d.cursor == crate::parser::front(left, old(p).end())
                    &&& final(p).rest() == left
                },
                _ => false,
            },
    {
        let name = match p.expect(Kind::Function) {
            Ok(c) => Function(c),
            Err(d) => {
                return Err(d);
            },
        };
        let ghost body = p.rest();
        let ghost whole = crate::grammar::scan(body, seq![Kind::RightParen]);
        let mut awaited: Vec<Kind> = Vec::new();
        awaited.push(Kind::RightParen);
        let mut params: Vec<Cursor> = Vec::new();
        proof {
            assert(awaited@ =~= seq![Kind::RightParen]);
            assert(body.skip(0) =~= body);
        }
        loop
            invariant
                p.reads_like(*old(p)),
                crate::grammar::starts_with(old(p).rest(), Kind::Function),
                body == old(p).rest().drop_first(),
                name.0 == old(p).rest()[0],
                whole == crate::grammar::scan(body, seq![Kind::RightParen]),
                awaited@.len() >= 1,
                forall|i: int| 0 <= i < awaited@.len() ==> awaited@[i] != Kind::Eof,
                params@.len() <= body.len(),
                params@ == body.take(params@.len() as int),
                p.rest() == body.skip(params@.len() as int),
                whole.0 == crate::grammar::scan(p.rest(), awaited@).0,
                whole.1 == params@.len() + crate::grammar::scan(p.rest(), awaited@).1,
            decreases p.rest().len(),
        {
            let c = p.peek();
            let kind = c.token.kind;
            let n: usize = awaited.len();
            let ghost at = params@.len() as int;
            if closes(kind) {
                if kind != awaited[n - 1] {
                    return Err(Diagnostic::unexpected(c));
                }
                if n == 1 {
                    let _ = p.next();
                    assert(body.skip(at).drop_first() =~= body.skip(at + 1));
                    return Ok(FunctionBlock { name, params, close: RightParen(c) });
                }
                let _ = awaited.pop();
            } else if let Some(k) = closer(kind) {
                awaited.push(k);
            }
            assert(body.skip(at).drop_first() =~= body.skip(at + 1));
            assert(body.take(at + 1) =~= body.take(at).push(body[at]));
            let _ = p.next();
            params.push(c);
        }
    }

    /// Hands every cursor of the function to the sink, in order.
    pub fn to_cursors<S: CursorSink>(&self, s: &mut S)
        ensures
            final(s).received() == old(s).received() + crate::tree::block_cursors(self@),
    {
        self.name.0.to_cursors(s);
        let mut i: usize = 0;
        while i < self.params.len()
            invariant
                i <= self.params@.len(),
                s.received() == old(s).received().push(self.name.0) + self.params@.take(i as int),
            decreases self.params@.len() - i,
        {
            assert(self.params@.take(i + 1) =~= self.params@.take(i as int).push(
                self.params@[i as int],
            ));
            self.params[i].to_cursors(s);
            i = i + 1;
        }
        assert(self.params@.take(i as int) =~= self.params@);
        self.close.0.to_cursors(s);
        assert(s.received() =~= old(s).received() + crate::tree::block_cursors(self@));
    }

    /// From the name to the parenthesis that closes the function.
    pub fn to_span(&self) -> (s: Span)
        ensures
            s == crate::tree::block_span(self@),
    {
        self.name.0.to_span() + self.close.0.to_span()
    }

    /// Whether both have the same name and, one by one, the same tokens.
    pub fn semantic_eq(&self, other: &Self) -> (b: bool)
        ensures
            b == crate::tree::same_block(self@, other@),
    {
        if !self.name.0.semantic_eq(&other.name.0) || self.params.len() != other.params.len() {
            return false;
        }
        let mut i: usize = 0;
        while i < self.params.len()
            invariant
                i <= self.params@.len(),
                self.params@.len() == other.params@.len(),
                forall|j: int| 0 <= j < i ==> (#[trigger] self.params@[j]).same(other.params@[j]),
            decreases self.params@.len() - i,
        {
            if !self.params[i].semantic_eq(&other.params[i]) {
                assert(!self@.params[i as int].same(other@.params[i as int]));
                return false;
            }
            i = i + 1;
        }
        true
    }
}

} // verus!
