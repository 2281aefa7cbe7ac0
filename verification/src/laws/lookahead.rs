//! Reading goes from the front, and looks no further than one cursor ahead.
use vstd::prelude::*;

use crate::cursor::Cursor;
use crate::grammar::{
    args_of, block_of, closer_of, expression_of, is_closer, opens_calc, opens_math, parens_of,
    product_of, product_tail_of, scan, spaced, starts_with, starts_with_product_op,
    starts_with_sum_op, sum_of, sum_tail_of, value_of, Outcome,
};
use crate::token::Kind;
use crate::tree::{ArgTree, ProductTree, SumTree, ValueTree};

verus! {

/// How many cursors were passed over.
pub open spec fn passed<T>(cursors: Seq<Cursor>, outcome: Outcome<T>) -> int {
    cursors.len() - outcome.left().len()
}

/// What is left is the end of what there was, and whatever was read took at least one cursor.
pub open spec fn leaves_an_end<T>(cursors: Seq<Cursor>, outcome: Outcome<T>) -> bool {
    &&& outcome.left().len() <= cursors.len()
    &&& outcome.left() == cursors.skip(passed(cursors, outcome))
    &&& outcome is Read ==> outcome.left().len() < cursors.len()
}

/// The same reading in other cursors: the same tree, or stuck at the same place.
pub open spec fn moved<T>(outcome: Outcome<T>, left: Seq<Cursor>) -> Outcome<T> {
    match outcome {
        Outcome::Read(t, _) => Outcome::Read(t, left),
        Outcome::Stuck(_) => Outcome::Stuck(left),
    }
}

/// Two sequences of cursors agree on their first `n` cursors.
pub open spec fn agree(a: Seq<Cursor>, b: Seq<Cursor>, n: int) -> bool {
    0 <= n <= a.len() && n <= b.len() && a.take(n) == b.take(n)
}

proof fn lemma_agree_behind(a: Seq<Cursor>, b: Seq<Cursor>, n: int, k: int)
    requires
        agree(a, b, n),
        0 <= k <= n,
    ensures
        agree(a.skip(k), b.skip(k), n - k),
        agree(a, b, k),
        k < n ==> a[k] == b[k],
{
    assert(a.skip(k).take(n - k) =~= a.take(n).skip(k));
    assert(b.skip(k).take(n - k) =~= b.take(n).skip(k));
    assert(a.take(k) =~= a.take(n).take(k));
    assert(b.take(k) =~= b.take(n).take(k));
    if k < n {
        assert(a.take(n)[k] == b.take(n)[k]);
    }
}

// ---- what is left is an end of what there was ----
/// What is left behind a block is the end of what there was.
pub proof fn lemma_block_leaves(cursors: Seq<Cursor>)
    ensures
        leaves_an_end(cursors, block_of(cursors)),
{
    if starts_with(cursors, Kind::Function) {
        let body = cursors.drop_first();
        crate::laws::written::lemma_scan_stops(body, seq![Kind::RightParen]);
        let (closed, at) = scan(body, seq![Kind::RightParen]);
        assert(body.skip(at) =~= cursors.skip(at + 1));
        if closed {
            assert(body.skip(at + 1) =~= cursors.skip(at + 2));
        }
    } else {
        assert(cursors.skip(0) =~= cursors);
    }
}

/// An end of an end is an end.
proof fn lemma_end_of_end<T, U>(cursors: Seq<Cursor>, first: Outcome<T>, k: int, then: Outcome<U>)
    requires
        leaves_an_end(cursors, first),
        0 <= k <= first.left().len(),
        leaves_an_end(first.left().skip(k), then),
    ensures
        then.left().len() <= cursors.len(),
        then.left() == cursors.skip(passed(cursors, then)),
{
    assert(then.left() =~= cursors.skip(passed(cursors, then)));
}

/// What is left behind a value is the end of what there was.
pub proof fn lemma_value_leaves(source: Seq<char>, cursors: Seq<Cursor>)
    ensures
        leaves_an_end(cursors, value_of(source, cursors)),
    decreases cursors.len(), 1int,
{
    assert(cursors.skip(0) =~= cursors);
    if cursors.len() > 0 {
        assert(cursors.drop_first() =~= cursors.skip(1));
        lemma_expression_leaves(source, cursors);
        lemma_block_leaves(cursors);
        lemma_parens_leaves(source, cursors);
    }
}

/// What is left behind parentheses is the end of what there was.
pub proof fn lemma_parens_leaves(source: Seq<char>, cursors: Seq<Cursor>)
    ensures
        leaves_an_end(cursors, parens_of(source, cursors)),
    decreases cursors.len(), 0int,
{
    assert(cursors.skip(0) =~= cursors);
    if starts_with(cursors, Kind::LeftParen) {
        let inside = cursors.drop_first();
        lemma_sum_leaves(source, inside);
        let left = sum_of(source, inside).left();
        assert(left =~= cursors.skip(cursors.len() - left.len()));
        if left.len() > 0 {
            assert(left.drop_first() =~= cursors.skip(cursors.len() - left.len() + 1));
        }
    }
}

/// What is left behind an expression is the end of what there was.
pub proof fn lemma_expression_leaves(source: Seq<char>, cursors: Seq<Cursor>)
    ensures
        leaves_an_end(cursors, expression_of(source, cursors)),
    decreases cursors.len(), 0int,
{
    assert(cursors.skip(0) =~= cursors);
    if cursors.len() > 0 && opens_math(source, cursors[0]) {
        let inside = cursors.drop_first();
        let single = opens_calc(source, cursors[0]);
        lemma_args_leave(source, single, Seq::empty(), inside);
        let left = args_of(source, single, Seq::empty(), inside).left();
        assert(left =~= cursors.skip(cursors.len() - left.len()));
        if left.len() > 0 {
            assert(left.drop_first() =~= cursors.skip(cursors.len() - left.len() + 1));
        }
    }
}

proof fn lemma_args_leave(
    source: Seq<char>,
    single: bool,
    before: Seq<ArgTree>,
    cursors: Seq<Cursor>,
)
    ensures
        leaves_an_end(cursors, args_of(source, single, before, cursors)),
    decreases cursors.len(), 4int,
{
    lemma_sum_leaves(source, cursors);
    if let Outcome::Read(sum, left) = sum_of(source, cursors) {
        if !single && starts_with(left, Kind::Comma) {
            let more = before.push(ArgTree { sum, trailing_comma: Some(left[0]) });
            assert(left.drop_first() =~= left.skip(1));
            lemma_args_leave(source, single, more, left.drop_first());
            lemma_end_of_end(
                cursors,
                sum_of(source, cursors),
                1,
                args_of(source, single, more, left.drop_first()),
            );
        }
    }
}

/// What is left behind a product is the end of what there was.
pub proof fn lemma_product_leaves(source: Seq<char>, cursors: Seq<Cursor>)
    ensures
        leaves_an_end(cursors, product_of(source, cursors)),
    decreases cursors.len(), 2int,
{
    lemma_value_leaves(source, cursors);
    if let Outcome::Read(head, left) = value_of(source, cursors) {
        lemma_product_tail_leaves(source, head, Seq::empty(), left);
        assert(left.skip(0) =~= left);
        lemma_end_of_end(
            cursors,
            value_of(source, cursors),
            0,
            Outcome::<ProductTree>::Stuck(product_tail_of(source, head, Seq::empty(), left).left()),
        );
    }
}

/// Nothing may be taken here, so all may be left.
proof fn lemma_product_tail_leaves(
    source: Seq<char>,
    head: ValueTree,
    tail: Seq<(Cursor, ValueTree)>,
    cursors: Seq<Cursor>,
)
    ensures
        leaves_an_end(
            cursors,
            Outcome::<ProductTree>::Stuck(product_tail_of(source, head, tail, cursors).left()),
        ),
    decreases cursors.len(), 0int,
{
    assert(cursors.skip(0) =~= cursors);
    if starts_with_product_op(cursors) {
        let inside = cursors.drop_first();
        lemma_value_leaves(source, inside);
        let first = value_of(source, inside);
        let left = first.left();
        assert(left =~= cursors.skip(cursors.len() - left.len()));
        if let Outcome::Read(rhs, _) = first {
            let more = tail.push((cursors[0], rhs));
            lemma_product_tail_leaves(source, head, more, left);
            let end = product_tail_of(source, head, more, left).left();
            assert(end =~= cursors.skip(cursors.len() - end.len()));
        }
    }
}

/// What is left behind a sum is the end of what there was.
pub proof fn lemma_sum_leaves(source: Seq<char>, cursors: Seq<Cursor>)
    ensures
        leaves_an_end(cursors, sum_of(source, cursors)),
    decreases cursors.len(), 3int,
{
    lemma_product_leaves(source, cursors);
    if let Outcome::Read(head, left) = product_of(source, cursors) {
        lemma_sum_tail_leaves(source, head, Seq::empty(), left);
        assert(left.skip(0) =~= left);
        lemma_end_of_end(
            cursors,
            product_of(source, cursors),
            0,
            Outcome::<SumTree>::Stuck(sum_tail_of(source, head, Seq::empty(), left).left()),
        );
    }
}

/// Nothing may be taken here, so all may be left.
proof fn lemma_sum_tail_leaves(
    source: Seq<char>,
    head: ProductTree,
    tail: Seq<(Cursor, ProductTree)>,
    cursors: Seq<Cursor>,
)
    ensures
        leaves_an_end(
            cursors,
            Outcome::<SumTree>::Stuck(sum_tail_of(source, head, tail, cursors).left()),
        ),
    decreases cursors.len(), 0int,
{
    assert(cursors.skip(0) =~= cursors);
    if starts_with_sum_op(cursors) {
        let inside = cursors.drop_first();
        lemma_product_leaves(source, inside);
        let first = product_of(source, inside);
        let left = first.left();
        assert(left =~= cursors.skip(cursors.len() - left.len()));
        if let Outcome::Read(rhs, _) = first {
            let more = tail.push((spaced(cursors[0]), rhs));
            lemma_sum_tail_leaves(source, head, more, left);
            let end = sum_tail_of(source, head, more, left).left();
            assert(end =~= cursors.skip(cursors.len() - end.len()));
        }
    }
}

// ---- one cursor ahead is enough ----
proof fn lemma_scan_local(a: Seq<Cursor>, b: Seq<Cursor>, awaited: Seq<Kind>)
    requires
        agree(a, b, scan(a, awaited).1 + 1),
    ensures
        scan(b, awaited) == scan(a, awaited),
    decreases a.len(),
{
    let (closed, at) = scan(a, awaited);
    crate::laws::written::lemma_scan_stops(a, awaited);
    lemma_agree_behind(a, b, at + 1, 0);
    let kind = a[0].kind();
    let next = if is_closer(kind) {
        awaited.drop_last()
    } else {
        match closer_of(kind) {
            Some(closer) => awaited.push(closer),
            None => awaited,
        }
    };
    crate::laws::written::lemma_scan_stops(a.drop_first(), next);
    if at > 0 {
        lemma_agree_behind(a, b, at + 1, 1);
        assert(a.drop_first() =~= a.skip(1));
        assert(b.drop_first() =~= b.skip(1));
        lemma_scan_local(a.drop_first(), b.drop_first(), next);
    }
}

/// How a block is read depends on no cursor behind the first one that is left.
pub proof fn lemma_block_local(a: Seq<Cursor>, b: Seq<Cursor>)
    requires
        agree(a, b, passed(a, block_of(a)) + 1),
    ensures
        block_of(b) == moved(block_of(a), b.skip(passed(a, block_of(a)))),
{
    let k = passed(a, block_of(a));
    lemma_block_leaves(a);
    lemma_agree_behind(a, b, k + 1, 0);
    if starts_with(a, Kind::Function) {
        let body = a.drop_first();
        let other = b.drop_first();
        let (closed, at) = scan(body, seq![Kind::RightParen]);
        crate::laws::written::lemma_scan_stops(body, seq![Kind::RightParen]);
        assert(body =~= a.skip(1));
        assert(other =~= b.skip(1));
        lemma_agree_behind(a, b, k + 1, 1);
        lemma_agree_behind(body, other, k, at + 1);
        lemma_scan_local(body, other, seq![Kind::RightParen]);
        lemma_agree_behind(body, other, k, at);
        if closed {
            assert(other.skip(at + 1) =~= b.skip(k));
        } else {
            assert(other.skip(at) =~= b.skip(k));
        }
    } else {
        assert(b.skip(0) =~= b);
    }
}

/// How a value is read depends on no cursor behind the first one that is left.
pub proof fn lemma_value_local(source: Seq<char>, a: Seq<Cursor>, b: Seq<Cursor>)
    requires
        agree(a, b, passed(a, value_of(source, a)) + 1),
    ensures
        value_of(source, b) == moved(
            value_of(source, a),
            b.skip(passed(a, value_of(source, a))),
        ),
    decreases a.len(), 1int,
{
    let k = passed(a, value_of(source, a));
    lemma_value_leaves(source, a);
    lemma_agree_behind(a, b, k + 1, 0);
    assert(b.drop_first() =~= b.skip(1));
    assert(b.skip(0) =~= b);
    let kind = a[0].kind();
    if kind == Kind::Function {
        if opens_math(source, a[0]) {
            lemma_expression_local(source, a, b);
        } else {
            lemma_block_local(a, b);
        }
    } else if kind == Kind::LeftParen {
        lemma_parens_local(source, a, b);
    }
}

/// How parentheses are read depends on no cursor behind the first one that is left.
pub proof fn lemma_parens_local(source: Seq<char>, a: Seq<Cursor>, b: Seq<Cursor>)
    requires
        agree(a, b, passed(a, parens_of(source, a)) + 1),
    ensures
        parens_of(source, b) == moved(
            parens_of(source, a),
            b.skip(passed(a, parens_of(source, a))),
        ),
    decreases a.len(), 0int,
{
    let k = passed(a, parens_of(source, a));
    lemma_parens_leaves(source, a);
    lemma_agree_behind(a, b, k + 1, 0);
    assert(b.skip(0) =~= b);
    if starts_with(a, Kind::LeftParen) {
        let inside = a.drop_first();
        let other = b.drop_first();
        assert(inside =~= a.skip(1));
        assert(other =~= b.skip(1));
        lemma_sum_leaves(source, inside);
        let at = passed(inside, sum_of(source, inside));
        lemma_agree_behind(a, b, k + 1, 1);
        lemma_agree_behind(inside, other, k, at + 1);
        lemma_sum_local(source, inside, other);
        lemma_agree_behind(inside, other, k, at);
        assert(other.skip(at) =~= b.skip(at + 1));
        assert(other.skip(at).drop_first() =~= b.skip(at + 2));
    }
}

/// How an expression is read depends on no cursor behind the first one that is left.
pub proof fn lemma_expression_local(source: Seq<char>, a: Seq<Cursor>, b: Seq<Cursor>)
    requires
        agree(a, b, passed(a, expression_of(source, a)) + 1),
    ensures
        expression_of(source, b) == moved(
            expression_of(source, a),
            b.skip(passed(a, expression_of(source, a))),
        ),
    decreases a.len(), 0int,
{
    let k = passed(a, expression_of(source, a));
    lemma_expression_leaves(source, a);
    lemma_agree_behind(a, b, k + 1, 0);
    assert(b.skip(0) =~= b);
    if opens_math(source, a[0]) {
        let inside = a.drop_first();
        let other = b.drop_first();
        let single = opens_calc(source, a[0]);
        assert(inside =~= a.skip(1));
        assert(other =~= b.skip(1));
        lemma_args_leave(source, single, Seq::empty(), inside);
        let at = passed(inside, args_of(source, single, Seq::empty(), inside));
        lemma_agree_behind(a, b, k + 1, 1);
        lemma_agree_behind(inside, other, k, at + 1);
        lemma_args_local(source, single, Seq::empty(), inside, other);
        lemma_agree_behind(inside, other, k, at);
        assert(other.skip(at) =~= b.skip(at + 1));
        assert(other.skip(at).drop_first() =~= b.skip(at + 2));
    }
}

proof fn lemma_args_local(
    source: Seq<char>,
    single: bool,
    before: Seq<ArgTree>,
    a: Seq<Cursor>,
    b: Seq<Cursor>,
)
    requires
        agree(a, b, passed(a, args_of(source, single, before, a)) + 1),
    ensures
        args_of(source, single, before, b) == moved(
            args_of(source, single, before, a),
            b.skip(passed(a, args_of(source, single, before, a))),
        ),
    decreases a.len(), 4int,
{
    let k = passed(a, args_of(source, single, before, a));
    lemma_args_leave(source, single, before, a);
    lemma_sum_leaves(source, a);
    let first = sum_of(source, a);
    let at = passed(a, first);
    if let Outcome::Read(sum, left) = first {
        if !single && starts_with(left, Kind::Comma) {
            let more = before.push(ArgTree { sum, trailing_comma: Some(left[0]) });
            let inside = left.drop_first();
            lemma_args_leave(source, single, more, inside);
            lemma_agree_behind(a, b, k + 1, at + 1);
            lemma_sum_local(source, a, b);
            lemma_agree_behind(a, b, k + 1, at);
            let other = b.skip(at).drop_first();
            assert(inside =~= a.skip(at + 1));
            assert(other =~= b.skip(at + 1));
            lemma_args_local(source, single, more, inside, other);
            assert(other.skip(k - at - 1) =~= b.skip(k));
        } else {
            lemma_sum_local(source, a, b);
            lemma_agree_behind(a, b, k + 1, at);
        }
    } else {
        lemma_sum_local(source, a, b);
    }
}

/// How a product is read depends on no cursor behind the first one that is left.
pub proof fn lemma_product_local(source: Seq<char>, a: Seq<Cursor>, b: Seq<Cursor>)
    requires
        agree(a, b, passed(a, product_of(source, a)) + 1),
    ensures
        product_of(source, b) == moved(
            product_of(source, a),
            b.skip(passed(a, product_of(source, a))),
        ),
    decreases a.len(), 2int,
{
    let k = passed(a, product_of(source, a));
    lemma_product_leaves(source, a);
    lemma_value_leaves(source, a);
    let first = value_of(source, a);
    let at = passed(a, first);
    if let Outcome::Read(head, left) = first {
        lemma_product_tail_leaves(source, head, Seq::empty(), left);
        lemma_agree_behind(a, b, k + 1, at + 1);
        lemma_value_local(source, a, b);
        lemma_agree_behind(a, b, k + 1, at);
        lemma_product_tail_local(source, head, Seq::empty(), left, b.skip(at));
        assert(b.skip(at).skip(k - at) =~= b.skip(k));
    } else {
        lemma_value_local(source, a, b);
    }
}

proof fn lemma_product_tail_local(
    source: Seq<char>,
    head: ValueTree,
    tail: Seq<(Cursor, ValueTree)>,
    a: Seq<Cursor>,
    b: Seq<Cursor>,
)
    requires
        agree(a, b, passed(a, product_tail_of(source, head, tail, a)) + 1),
    ensures
        product_tail_of(source, head, tail, b) == moved(
            product_tail_of(source, head, tail, a),
            b.skip(passed(a, product_tail_of(source, head, tail, a))),
        ),
    decreases a.len(), 0int,
{
    let k = passed(a, product_tail_of(source, head, tail, a));
    lemma_product_tail_leaves(source, head, tail, a);
    lemma_agree_behind(a, b, k + 1, 0);
    assert(b.skip(0) =~= b);
    if starts_with_product_op(a) {
        let inside = a.drop_first();
        let other = b.drop_first();
        assert(inside =~= a.skip(1));
        assert(other =~= b.skip(1));
        lemma_value_leaves(source, inside);
        let first = value_of(source, inside);
        let at = passed(inside, first);
        if let Outcome::Read(rhs, left) = first {
            let more = tail.push((a[0], rhs));
            lemma_product_tail_leaves(source, head, more, left);
            lemma_agree_behind(a, b, k + 1, 1);
            lemma_agree_behind(inside, other, k, at + 1);
            lemma_value_local(source, inside, other);
            lemma_agree_behind(inside, other, k, at);
            lemma_product_tail_local(source, head, more, left, other.skip(at));
            assert(other.skip(at).skip(k - 1 - at) =~= b.skip(k));
        } else {
            lemma_agree_behind(a, b, k + 1, 1);
            lemma_value_local(source, inside, other);
            assert(other.skip(at) =~= b.skip(k));
        }
    }
}

/// How a sum is read depends on no cursor behind the first one that is left.
pub proof fn lemma_sum_local(source: Seq<char>, a: Seq<Cursor>, b: Seq<Cursor>)
    requires
        agree(a, b, passed(a, sum_of(source, a)) + 1),
    ensures
        sum_of(source, b) == moved(
            sum_of(source, a),
            b.skip(passed(a, sum_of(source, a))),
        ),
    decreases a.len(), 3int,
{
    let k = passed(a, sum_of(source, a));
    lemma_sum_leaves(source, a);
    lemma_product_leaves(source, a);
    let first = product_of(source, a);
    let at = passed(a, first);
    if let Outcome::Read(head, left) = first {
        lemma_sum_tail_leaves(source, head, Seq::empty(), left);
        lemma_agree_behind(a, b, k + 1, at + 1);
        lemma_product_local(source, a, b);
        lemma_agree_behind(a, b, k + 1, at);
        lemma_sum_tail_local(source, head, Seq::empty(), left, b.skip(at));
        assert(b.skip(at).skip(k - at) =~= b.skip(k));
    } else {
        lemma_product_local(source, a, b);
    }
}

proof fn lemma_sum_tail_local(
    source: Seq<char>,
    head: ProductTree,
    tail: Seq<(Cursor, ProductTree)>,
    a: Seq<Cursor>,
    b: Seq<Cursor>,
)
    requires
        agree(a, b, passed(a, sum_tail_of(source, head, tail, a)) + 1),
    ensures
        sum_tail_of(source, head, tail, b) == moved(
            sum_tail_of(source, head, tail, a),
            b.skip(passed(a, sum_tail_of(source, head, tail, a))),
        ),
    decreases a.len(), 0int,
{
    let k = passed(a, sum_tail_of(source, head, tail, a));
    lemma_sum_tail_leaves(source, head, tail, a);
    lemma_agree_behind(a, b, k + 1, 0);
    assert(b.skip(0) =~= b);
    if starts_with_sum_op(a) {
        let inside = a.drop_first();
        let other = b.drop_first();
        assert(inside =~= a.skip(1));
        assert(other =~= b.skip(1));
        lemma_product_leaves(source, inside);
        let first = product_of(source, inside);
        let at = passed(inside, first);
        if let Outcome::Read(rhs, left) = first {
            let more = tail.push((spaced(a[0]), rhs));
            lemma_sum_tail_leaves(source, head, more, left);
            lemma_agree_behind(a, b, k + 1, 1);
            lemma_agree_behind(inside, other, k, at + 1);
            lemma_product_local(source, inside, other);
            lemma_agree_behind(inside, other, k, at);
            lemma_sum_tail_local(source, head, more, left, other.skip(at));
            assert(other.skip(at).skip(k - 1 - at) =~= b.skip(k));
        } else {
            lemma_agree_behind(a, b, k + 1, 1);
            lemma_product_local(source, inside, other);
            assert(other.skip(at) =~= b.skip(k));
        }
    }
}

} // verus!
