//! A function is read with whatever its parentheses hold, as long as brackets pair up in it.
use vstd::prelude::*;

use crate::balance::{
    balanced, law_balanced_joined, lemma_bracketed, lemma_plain_first, pairs, plain,
};
use crate::cursor::Cursor;
use crate::grammar::{block_of, closer_of, is_closer, one_on, scan, Outcome};
use crate::token::Kind;
use crate::tree::BlockTree;

verus! {

/// How balanced cursors come about: none at all are balanced; so is a cursor that is no bracket;
/// so are a bracket, balanced cursors and the bracket of its sort that closes it; and so are
/// balanced cursors behind balanced cursors.
pub proof fn law_balanced_built(c: Cursor, d: Cursor, a: Seq<Cursor>, b: Seq<Cursor>)
    ensures
        balanced(Seq::empty()),
        c.token.kind != Kind::Function && c.token.kind != Kind::LeftParen && c.token.kind
            != Kind::RightParen && c.token.kind != Kind::LeftSquare && c.token.kind
            != Kind::RightSquare && c.token.kind != Kind::LeftCurly && c.token.kind
            != Kind::RightCurly && c.token.kind != Kind::Eof ==> balanced(seq![c]),
        c.token.kind == Kind::Function && d.token.kind == Kind::RightParen && balanced(a)
            ==> balanced(seq![c] + a + seq![d]),
        c.token.kind == Kind::LeftParen && d.token.kind == Kind::RightParen && balanced(a)
            ==> balanced(seq![c] + a + seq![d]),
        c.token.kind == Kind::LeftSquare && d.token.kind == Kind::RightSquare && balanced(a)
            ==> balanced(seq![c] + a + seq![d]),
        c.token.kind == Kind::LeftCurly && d.token.kind == Kind::RightCurly && balanced(a)
            ==> balanced(seq![c] + a + seq![d]),
        balanced(a) && balanced(b) ==> balanced(a + b),
{
    let none = Seq::<Cursor>::empty();
    if plain(c.token.kind) {
        lemma_plain_first(c, none);
        assert(seq![c] + none =~= seq![c]);
    }
    if pairs(c.token.kind, d.token.kind) && balanced(a) {
        lemma_bracketed(c, a, d, none);
        assert(seq![c] + a + seq![d] + none =~= seq![c] + a + seq![d]);
    }
    if balanced(a) && balanced(b) {
        law_balanced_joined(a, b);
    }
}

/// Balanced cursors come about in no other way: the first is no bracket and the others are
/// balanced, or the first is a bracket that is closed further on, with balanced cursors between the
/// two and behind them.
pub proof fn law_balanced_taken_apart(s: Seq<Cursor>) -> (k: int)
    requires
        balanced(s),
        s.len() > 0,
    ensures
        0 <= k < s.len(),
        balanced(s.skip(k + 1)),
        k == 0 ==> s[0].token.kind != Kind::Function && s[0].token.kind != Kind::LeftParen
            && s[0].token.kind != Kind::RightParen && s[0].token.kind != Kind::LeftSquare
            && s[0].token.kind != Kind::RightSquare && s[0].token.kind != Kind::LeftCurly
            && s[0].token.kind != Kind::RightCurly && s[0].token.kind != Kind::Eof,
        k > 0 ==> balanced(s.subrange(1, k)) && {
            ||| s[0].token.kind == Kind::Function && s[k].token.kind == Kind::RightParen
            ||| s[0].token.kind == Kind::LeftParen && s[k].token.kind == Kind::RightParen
            ||| s[0].token.kind == Kind::LeftSquare && s[k].token.kind == Kind::RightSquare
            ||| s[0].token.kind == Kind::LeftCurly && s[k].token.kind == Kind::RightCurly
        },
{
    if plain(s[0].token.kind) && balanced(s.skip(1)) {
        0
    } else {
        choose|k: int|
            #![trigger s.subrange(1, k)]
            0 < k < s.len() && pairs(s[0].token.kind, s[k].token.kind) && balanced(
                s.subrange(1, k),
            ) && balanced(s.skip(k + 1))
    }
}

/// A scan passes over balanced cursors, and goes on behind them as if they were not there.
pub proof fn lemma_scan_passes(params: Seq<Cursor>, rest: Seq<Cursor>, awaited: Seq<Kind>)
    requires
        balanced(params),
        awaited.len() > 0,
    ensures
        scan(params + rest, awaited) == (
            scan(rest, awaited).0,
            scan(rest, awaited).1 + params.len(),
        ),
    decreases params.len(),
{
    let all = params + rest;
    if params.len() == 0 {
        assert(all =~= rest);
    } else if plain(params[0].token.kind) && balanced(params.skip(1)) {
        lemma_scan_passes(params.skip(1), rest, awaited);
        assert(all.drop_first() =~= params.skip(1) + rest);
    } else {
        let k = choose|k: int|
            #![trigger params.subrange(1, k)]
            0 < k < params.len() && pairs(params[0].token.kind, params[k].token.kind) && balanced(
                params.subrange(1, k),
            ) && balanced(params.skip(k + 1));
        let inner = params.subrange(1, k);
        let behind = params.skip(k + 1);
        let closer = params[k].token.kind;
        let more = awaited.push(closer);
        let from_close = seq![params[k]] + (behind + rest);
        assert(all.drop_first() =~= inner + from_close);
        lemma_scan_passes(inner, from_close, more);
        assert(from_close.drop_first() =~= behind + rest);
        assert(more.drop_last() =~= awaited);
        lemma_scan_passes(behind, rest, awaited);
        assert(closer_of(params[0].token.kind) == Some(closer));
        assert(!is_closer(params[0].token.kind));
        assert(scan(from_close, more) == one_on(scan(behind + rest, awaited)));
    }
}

/// Where a scan reaches its end, it passed over balanced cursors up to the innermost closer that
/// was awaited, and went on behind that one.
pub proof fn lemma_scan_balanced(cursors: Seq<Cursor>, awaited: Seq<Kind>) -> (k: int)
    requires
        scan(cursors, awaited).0,
    ensures
        awaited.len() > 0,
        0 <= k < cursors.len(),
        balanced(cursors.take(k)),
        cursors[k].token.kind == awaited.last(),
        awaited.len() == 1 ==> scan(cursors, awaited).1 == k,
        awaited.len() > 1 ==> scan(cursors, awaited) == (
            true,
            scan(cursors.skip(k + 1), awaited.drop_last()).1 + k + 1,
        ) && scan(cursors.skip(k + 1), awaited.drop_last()).0,
    decreases cursors.len(),
{
    let kind = cursors[0].token.kind;
    let others = cursors.drop_first();
    if is_closer(kind) {
        assert(cursors.take(0).len() == 0);
        assert(cursors.skip(1) =~= others);
        0
    } else if plain(kind) {
        let j = lemma_scan_balanced(others, awaited);
        lemma_plain_first(cursors[0], others.take(j));
        assert(cursors.take(j + 1) =~= seq![cursors[0]] + others.take(j));
        assert(cursors.skip(j + 2) =~= others.skip(j + 1));
        j + 1
    } else {
        let closer = closer_of(kind)->0;
        let more = awaited.push(closer);
        let j = lemma_scan_balanced(others, more);
        assert(more.drop_last() =~= awaited);
        let behind = others.skip(j + 1);
        let i = lemma_scan_balanced(behind, awaited);
        lemma_bracketed(cursors[0], others.take(j), others[j], behind.take(i));
        let k = j + i + 2;
        assert(cursors.take(k) =~= seq![cursors[0]] + others.take(j) + seq![others[j]]
            + behind.take(i));
        assert(cursors.skip(k + 1) =~= behind.skip(i + 1));
        k
    }
}

/// A function is read whatever tokens stand between its parentheses, as long as brackets pair up
/// in them, and whatever follows.
pub proof fn law_function_read(
    name: Cursor,
    params: Seq<Cursor>,
    close: Cursor,
    rest: Seq<Cursor>,
)
    requires
        name.token.kind == Kind::Function,
        balanced(params),
        close.token.kind == Kind::RightParen,
    ensures
        block_of(seq![name] + params + seq![close] + rest) == Outcome::Read(
            BlockTree { name, params, close },
            rest,
        ),
{
    let cursors = seq![name] + params + seq![close] + rest;
    let body = cursors.drop_first();
    let end = seq![close] + rest;
    assert(body =~= params + end);
    lemma_scan_passes(params, end, seq![Kind::RightParen]);
    let n = params.len() as int;
    assert(body.take(n) =~= params);
    assert(body[n] == close);
    assert(body.skip(n + 1) =~= rest);
}

/// Nothing else is read as a function: a name, tokens in which brackets pair up, and the
/// parenthesis that closes the name, just as they stand in the input.
pub proof fn law_only_functions_read(cursors: Seq<Cursor>)
    ensures
        match block_of(cursors) {
            Outcome::Read(t, left) => {
                &&& cursors == seq![t.name] + t.params + seq![t.close] + left
                &&& t.name.token.kind == Kind::Function
                &&& balanced(t.params)
                &&& t.close.token.kind == Kind::RightParen
            },
            Outcome::Stuck(_) => true,
        },
{
    if let Outcome::Read(t, left) = block_of(cursors) {
        let body = cursors.drop_first();
        let at = lemma_scan_balanced(body, seq![Kind::RightParen]);
        assert(cursors =~= seq![t.name] + t.params + seq![t.close] + left);
    }
}

} // verus!
