//! Brackets that pair up.
use vstd::prelude::*;

use crate::cursor::Cursor;
use crate::token::Kind;

verus! {

/// Whether the second kind closes what the first one opens. A function name opens a parenthesis.
pub open spec fn pairs(open: Kind, close: Kind) -> bool {
    ||| open == Kind::Function && close == Kind::RightParen
    ||| open == Kind::LeftParen && close == Kind::RightParen
    ||| open == Kind::LeftSquare && close == Kind::RightSquare
    ||| open == Kind::LeftCurly && close == Kind::RightCurly
}

/// Whether a kind neither opens nor closes anything, nor ends the input.
pub open spec fn plain(kind: Kind) -> bool {
    &&& kind != Kind::Function && kind != Kind::LeftParen && kind != Kind::RightParen
    &&& kind != Kind::LeftSquare && kind != Kind::RightSquare
    &&& kind != Kind::LeftCurly && kind != Kind::RightCurly
    &&& kind != Kind::Eof
}

/// Cursors in which every bracket has its partner: none at all; or a plain one and then balanced
/// ones; or an opening bracket, balanced ones, the bracket that closes it, and then balanced ones.
pub open spec fn balanced(cursors: Seq<Cursor>) -> bool
    decreases cursors.len(),
{
    ||| cursors.len() == 0
    ||| cursors.len() > 0 && plain(cursors[0].token.kind) && balanced(cursors.skip(1))
    ||| exists|k: int|
        #![trigger cursors.subrange(1, k)]
        0 < k < cursors.len() && pairs(cursors[0].token.kind, cursors[k].token.kind) && balanced(
            cursors.subrange(1, k),
        ) && balanced(cursors.skip(k + 1))
}

/// A bracketed stretch in front of balanced cursors is balanced with them.
pub proof fn lemma_bracketed(open: Cursor, inner: Seq<Cursor>, close: Cursor, rest: Seq<Cursor>)
    requires
        pairs(open.token.kind, close.token.kind),
        balanced(inner),
        balanced(rest),
    ensures
        balanced(seq![open] + inner + seq![close] + rest),
{
    let all = seq![open] + inner + seq![close] + rest;
    let k = inner.len() as int + 1;
    assert(all.subrange(1, k) =~= inner);
    assert(all.skip(k + 1) =~= rest);
    assert(all[k] == close);
}

/// A plain cursor in front of balanced cursors is balanced with them.
pub proof fn lemma_plain_first(first: Cursor, rest: Seq<Cursor>)
    requires
        plain(first.token.kind),
        balanced(rest),
    ensures
        balanced(seq![first] + rest),
{
    assert((seq![first] + rest).skip(1) =~= rest);
}

/// Balanced cursors behind balanced cursors are balanced.
pub proof fn law_balanced_joined(a: Seq<Cursor>, b: Seq<Cursor>)
    requires
        balanced(a),
        balanced(b),
    ensures
        balanced(a + b),
    decreases a.len(),
{
    if a.len() == 0 {
        assert(a + b =~= b);
    } else if plain(a[0].token.kind) && balanced(a.skip(1)) {
        law_balanced_joined(a.skip(1), b);
        lemma_plain_first(a[0], a.skip(1) + b);
        assert(a + b =~= seq![a[0]] + (a.skip(1) + b));
    } else {
        let k = choose|k: int|
            #![trigger a.subrange(1, k)]
            0 < k < a.len() && pairs(a[0].token.kind, a[k].token.kind) && balanced(
                a.subrange(1, k),
            ) && balanced(a.skip(k + 1));
        law_balanced_joined(a.skip(k + 1), b);
        lemma_bracketed(a[0], a.subrange(1, k), a[k], a.skip(k + 1) + b);
        assert(a + b =~= seq![a[0]] + a.subrange(1, k) + seq![a[k]] + (a.skip(k + 1) + b));
    }
}

} // verus!
