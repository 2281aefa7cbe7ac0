//! Reading gets stuck no sooner than it has to: up to the cursor at which it does, the input could
//! still have become a calculation.
use vstd::prelude::*;

use crate::cursor::{Cursor, Span};
use crate::grammar::{
    args_of, block_of, closer_of, expression_of, is_closer, is_product_op, is_sum_op, opens_calc,
    opens_math, parens_of, product_of, product_tail_of, scan, spaced, starts_with, sum_of,
    sum_tail_of, value_of, Outcome,
};
use crate::laws::lookahead::{
    lemma_expression_leaves, lemma_product_leaves, lemma_sum_leaves, lemma_value_leaves, passed,
};
use crate::laws::read_back::lemma_args_read_back;
use crate::laws::rules::{
    law_parens_read, law_product_of_one, law_product_part, law_sum_of_one, law_sum_part,
    law_value_part,
};
use crate::laws::written::lemma_args_written;
use crate::token::{AssociatedWhitespaceRules, Kind, Token};
use crate::tree::{args_cursors, ArgTree, ProductTree, SumTree, ValueTree};

verus! {

/// Something was read, and nothing is left.
pub open spec fn whole<T>(outcome: Outcome<T>) -> bool {
    outcome is Read && outcome.left().len() == 0
}

/// A cursor of the given kind.
pub open spec fn some_cursor(kind: Kind) -> Cursor {
    Cursor {
        span: Span { start: 0, end: 0 },
        token: Token {
            kind,
            delim: None,
            meaning: 0,
            whitespace: AssociatedWhitespaceRules {
                enforce_before: false,
                enforce_after: false,
                ban_after: false,
            },
        },
    }
}

/// Kinds that close brackets.
pub open spec fn closers(awaited: Seq<Kind>) -> bool {
    forall|i: int|
        #![trigger awaited[i]]
        0 <= i < awaited.len() ==> awaited[i] == Kind::RightParen || awaited[i] == Kind::RightSquare
            || awaited[i] == Kind::RightCurly
}

proof fn lemma_awaited_closed(awaited: Seq<Kind>) -> (more: Seq<Cursor>)
    requires
        awaited.len() > 0,
        closers(awaited),
    ensures
        more.len() > 0,
        scan(more, awaited) == (true, more.len() - 1),
    decreases awaited.len(),
{
    let n = awaited.len() as int;
    let first = some_cursor(awaited[n - 1]);
    if n == 1 {
        seq![first]
    } else {
        let outer = awaited.drop_last();
        assert forall|i: int| #![trigger outer[i]] 0 <= i < outer.len() implies outer[i]
            == Kind::RightParen || outer[i] == Kind::RightSquare || outer[i] == Kind::RightCurly by {
            assert(outer[i] == awaited[i]);
        }
        let others = lemma_awaited_closed(outer);
        let more = seq![first] + others;
        assert(more.drop_first() =~= others);
        more
    }
}

proof fn lemma_scan_completes(cursors: Seq<Cursor>, awaited: Seq<Kind>) -> (more: Seq<Cursor>)
    requires
        awaited.len() > 0,
        closers(awaited),
        !scan(cursors, awaited).0,
    ensures
        more.len() > 0,
        0 <= scan(cursors, awaited).1 <= cursors.len(),
        scan(cursors.take(scan(cursors, awaited).1) + more, awaited) == (
            true,
            scan(cursors, awaited).1 + more.len() - 1,
        ),
    decreases cursors.len(),
{
    let at = scan(cursors, awaited).1;
    if cursors.len() == 0 || (is_closer(cursors[0].kind()) && cursors[0].kind()
        != awaited.last()) {
        let more = lemma_awaited_closed(awaited);
        assert(cursors.take(0) + more =~= more);
        more
    } else {
        let kind = cursors[0].kind();
        let next = if is_closer(kind) {
            awaited.drop_last()
        } else {
            match closer_of(kind) {
                Some(closer) => awaited.push(closer),
                None => awaited,
            }
        };
        assert forall|i: int| #![trigger next[i]] 0 <= i < next.len() implies next[i]
            == Kind::RightParen || next[i] == Kind::RightSquare || next[i] == Kind::RightCurly by {
            if i < awaited.len() {
                assert(next[i] == awaited[i]);
            }
        }
        let others = cursors.drop_first();
        let more = lemma_scan_completes(others, next);
        let all = cursors.take(at) + more;
        assert(all.drop_first() =~= others.take(at - 1) + more);
        assert(all[0] == cursors[0]);
        more
    }
}

proof fn lemma_block_completes(cursors: Seq<Cursor>) -> (more: Seq<Cursor>)
    requires
        block_of(cursors) is Stuck,
        starts_with(cursors, Kind::Function),
    ensures
        passed(cursors, block_of(cursors)) > 0,
        whole(block_of(cursors.take(passed(cursors, block_of(cursors))) + more)),
{
    let body = cursors.drop_first();
    let awaited = seq![Kind::RightParen];
    let at = scan(body, awaited).1;
    let more = lemma_scan_completes(body, awaited);
    let all = cursors.take(at + 1) + more;
    assert(all.drop_first() =~= body.take(at) + more);
    assert(all[0] == cursors[0]);
    more
}

#[verifier::spinoff_prover]
#[verifier::rlimit(40)]
proof fn lemma_value_completes(source: Seq<char>, cursors: Seq<Cursor>) -> (more: Seq<Cursor>)
    requires
        value_of(source, cursors) is Stuck,
    ensures
        0 <= passed(cursors, value_of(source, cursors)) <= cursors.len(),
        whole(value_of(source, cursors.take(passed(cursors, value_of(source, cursors))) + more)),
    decreases cursors.len(), 1int,
{
    lemma_value_leaves(source, cursors);
    let k = passed(cursors, value_of(source, cursors));
    if cursors.len() > 0 && cursors[0].kind() == Kind::Function {
        let more = if opens_math(source, cursors[0]) {
            lemma_expression_completes(source, cursors)
        } else {
            lemma_block_completes(cursors)
        };
        assert((cursors.take(k) + more)[0] == cursors[0]);
        more
    } else if cursors.len() > 0 && cursors[0].kind() == Kind::LeftParen {
        let more = lemma_parens_completes(source, cursors);
        assert((cursors.take(k) + more)[0] == cursors[0]);
        more
    } else {
        let more = seq![some_cursor(Kind::Number)];
        assert(cursors.take(0) + more =~= more);
        more
    }
}

/// Parentheses around a sum that is read whole are read whole.
proof fn lemma_parens_whole(source: Seq<char>, open: Cursor, inner: Seq<Cursor>, close: Cursor)
    requires
        open.kind() == Kind::LeftParen,
        whole(sum_of(source, inner)),
        close.kind() == Kind::RightParen,
    ensures
        whole(parens_of(source, seq![open] + inner + seq![close])),
{
    let sum = sum_of(source, inner)->Read_0;
    assert(sum_of(source, inner).left() =~= Seq::empty());
    law_parens_read(source, open, inner, sum, close, Seq::empty());
    let all = seq![open] + inner + seq![close];
    assert(all + Seq::empty() =~= all);
}

#[verifier::spinoff_prover]
#[verifier::rlimit(40)]
proof fn lemma_parens_completes(source: Seq<char>, cursors: Seq<Cursor>) -> (more: Seq<Cursor>)
    requires
        parens_of(source, cursors) is Stuck,
        starts_with(cursors, Kind::LeftParen),
    ensures
        0 < passed(cursors, parens_of(source, cursors)) <= cursors.len(),
        whole(parens_of(source, cursors.take(passed(cursors, parens_of(source, cursors))) + more)),
    decreases cursors.len(), 0int,
{
    let inside = cursors.drop_first();
    let open = cursors[0];
    let close = some_cursor(Kind::RightParen);
    lemma_sum_leaves(source, inside);
    let k = passed(inside, sum_of(source, inside));
    assert(parens_of(source, cursors).left() == sum_of(source, inside).left());
    let part = inside.take(k);
    let inner = match sum_of(source, inside) {
        Outcome::Stuck(left) => lemma_sum_completes(source, inside),
        Outcome::Read(sum, left) => {
            law_sum_part(source, inside, Seq::empty());
            assert(part + Seq::empty() =~= part);
            Seq::empty()
        },
    };
    lemma_parens_whole(source, open, part + inner, close);
    let more = inner + seq![close];
    assert(cursors.take(k + 1) + more =~= seq![open] + (part + inner) + seq![close]);
    more
}

/// Cursors up to a place in their end, taken apart: the first, those before the end, and those of
/// the end.
proof fn lemma_apart(cursors: Seq<Cursor>, left: Seq<Cursor>, j: int, more: Seq<Cursor>)
    requires
        0 < left.len() < cursors.len(),
        left == cursors.skip(cursors.len() - left.len()),
        0 <= j <= left.len(),
    ensures
        cursors.take(cursors.len() - left.len() + j) + more == seq![cursors[0]] + (
        cursors.drop_first().take(cursors.len() - 1 - left.len()) + (left.take(j) + more)),
        cursors.take(cursors.len() - left.len() + j) + more == cursors.take(
            cursors.len() - left.len(),
        ) + (left.take(j) + more),
{
    let n = cursors.len() - left.len();
    assert(cursors.take(n + j) =~= cursors.take(n) + left.take(j));
    assert(cursors.take(n) =~= seq![cursors[0]] + cursors.drop_first().take(n - 1));
    assert(cursors.take(n + j) + more =~= cursors.take(n) + (left.take(j) + more));
    assert(cursors.take(n) + (left.take(j) + more) =~= seq![cursors[0]] + (
    cursors.drop_first().take(n - 1) + (left.take(j) + more)));
}

/// Going on behind the first value.
proof fn lemma_product_start(source: Seq<char>, cursors: Seq<Cursor>, head: ValueTree, left: Seq<Cursor>)
    requires
        value_of(source, cursors) == Outcome::Read(head, left),
        left.len() < cursors.len(),
    ensures
        product_of(source, cursors) == product_tail_of(source, head, Seq::empty(), left),
{
}

/// Going on behind the first product.
proof fn lemma_sum_start(source: Seq<char>, cursors: Seq<Cursor>, head: ProductTree, left: Seq<Cursor>)
    requires
        product_of(source, cursors) == Outcome::Read(head, left),
        left.len() < cursors.len(),
    ensures
        sum_of(source, cursors) == sum_tail_of(source, head, Seq::empty(), left),
{
}

/// Going on behind one operator and value.
proof fn lemma_product_tail_step(
    source: Seq<char>,
    head: ValueTree,
    tail: Seq<(Cursor, ValueTree)>,
    op: Cursor,
    inside: Seq<Cursor>,
    rhs: ValueTree,
    left: Seq<Cursor>,
)
    requires
        is_product_op(op),
        value_of(source, inside) == Outcome::Read(rhs, left),
        left.len() <= inside.len(),
    ensures
        product_tail_of(source, head, tail, seq![op] + inside) == product_tail_of(
            source,
            head,
            tail.push((op, rhs)),
            left,
        ),
        left.len() == 0 ==> whole(product_tail_of(source, head, tail, seq![op] + inside)),
{
    assert((seq![op] + inside).drop_first() =~= inside);
    if left.len() == 0 {
        assert(product_tail_of(source, head, tail.push((op, rhs)), left) is Read);
    }
}

/// Going on behind one operator and product.
proof fn lemma_sum_tail_step(
    source: Seq<char>,
    head: ProductTree,
    tail: Seq<(Cursor, ProductTree)>,
    op: Cursor,
    inside: Seq<Cursor>,
    rhs: ProductTree,
    left: Seq<Cursor>,
)
    requires
        is_sum_op(op),
        product_of(source, inside) == Outcome::Read(rhs, left),
        left.len() <= inside.len(),
    ensures
        sum_tail_of(source, head, tail, seq![op] + inside) == sum_tail_of(
            source,
            head,
            tail.push((spaced(op), rhs)),
            left,
        ),
        left.len() == 0 ==> whole(sum_tail_of(source, head, tail, seq![op] + inside)),
{
    assert((seq![op] + inside).drop_first() =~= inside);
    if left.len() == 0 {
        assert(sum_tail_of(source, head, tail.push((spaced(op), rhs)), left) is Read);
    }
}

#[verifier::spinoff_prover]
#[verifier::rlimit(40)]
proof fn lemma_product_completes(source: Seq<char>, cursors: Seq<Cursor>) -> (more: Seq<Cursor>)
    requires
        product_of(source, cursors) is Stuck,
    ensures
        0 <= passed(cursors, product_of(source, cursors)) <= cursors.len(),
        whole(
            product_of(source, cursors.take(passed(cursors, product_of(source, cursors))) + more),
        ),
    decreases cursors.len(), 2int,
{
    lemma_value_leaves(source, cursors);
    lemma_product_leaves(source, cursors);
    let k = passed(cursors, product_of(source, cursors));
    match value_of(source, cursors) {
        Outcome::Stuck(left) => {
            let more = lemma_value_completes(source, cursors);
            let all = cursors.take(k) + more;
            let value = value_of(source, all)->Read_0;
            assert(value_of(source, all).left() =~= Seq::empty());
            law_product_of_one(source, all, value, Seq::empty());
            assert(all + Seq::empty() =~= all);
            more
        },
        Outcome::Read(head, left) => {
            lemma_product_start(source, cursors, head, left);
            let more = lemma_product_tail_completes(source, head, Seq::empty(), left);
            let j = passed(left, product_tail_of(source, head, Seq::empty(), left));
            let end = left.take(j) + more;
            law_value_part(source, cursors, end);
            let part = cursors.take(cursors.len() - left.len());
            lemma_product_start(source, part + end, head, end);
            assert(cursors.take(k) + more =~= part + end);
            more
        },
    }
}

#[verifier::spinoff_prover]
#[verifier::rlimit(40)]
proof fn lemma_product_tail_completes(
    source: Seq<char>,
    head: ValueTree,
    tail: Seq<(Cursor, ValueTree)>,
    cursors: Seq<Cursor>,
) -> (more: Seq<Cursor>)
    requires
        product_tail_of(source, head, tail, cursors) is Stuck,
    ensures
        0 < passed(cursors, product_tail_of(source, head, tail, cursors)) <= cursors.len(),
        whole(
            product_tail_of(
                source,
                head,
                tail,
                cursors.take(passed(cursors, product_tail_of(source, head, tail, cursors))) + more,
            ),
        ),
    decreases cursors.len(), 0int,
{
    let inside = cursors.drop_first();
    let op = cursors[0];
    lemma_value_leaves(source, inside);
    let k = passed(cursors, product_tail_of(source, head, tail, cursors));
    match value_of(source, inside) {
        Outcome::Stuck(left) => {
            let more = lemma_value_completes(source, inside);
            let all = inside.take(k - 1) + more;
            let rhs = value_of(source, all)->Read_0;
            let none = value_of(source, all).left();
            lemma_product_tail_step(source, head, tail, op, all, rhs, none);
            assert(cursors.take(k) + more =~= seq![op] + all);
            more
        },
        Outcome::Read(rhs, left) => {
            let longer = tail.push((op, rhs));
            assert(product_tail_of(source, head, tail, cursors) == product_tail_of(
                source,
                head,
                longer,
                left,
            ));
            let more = lemma_product_tail_completes(source, head, longer, left);
            let j = passed(left, product_tail_of(source, head, longer, left));
            let end = left.take(j) + more;
            law_value_part(source, inside, end);
            let all = inside.take(inside.len() - left.len()) + end;
            lemma_product_tail_step(source, head, tail, op, all, rhs, end);
            assert(left =~= cursors.skip(cursors.len() - left.len()));
            lemma_apart(cursors, left, j, more);
            assert(cursors.take(k) + more == seq![op] + all);
            more
        },
    }
}

#[verifier::spinoff_prover]
#[verifier::rlimit(40)]
proof fn lemma_sum_completes(source: Seq<char>, cursors: Seq<Cursor>) -> (more: Seq<Cursor>)
    requires
        sum_of(source, cursors) is Stuck,
    ensures
        0 <= passed(cursors, sum_of(source, cursors)) <= cursors.len(),
        whole(sum_of(source, cursors.take(passed(cursors, sum_of(source, cursors))) + more)),
    decreases cursors.len(), 3int,
{
    lemma_product_leaves(source, cursors);
    lemma_sum_leaves(source, cursors);
    let k = passed(cursors, sum_of(source, cursors));
    match product_of(source, cursors) {
        Outcome::Stuck(left) => {
            let more = lemma_product_completes(source, cursors);
            let all = cursors.take(k) + more;
            let product = product_of(source, all)->Read_0;
            assert(product_of(source, all).left() =~= Seq::empty());
            law_sum_of_one(source, all, product, Seq::empty());
            assert(all + Seq::empty() =~= all);
            more
        },
        Outcome::Read(head, left) => {
            lemma_sum_start(source, cursors, head, left);
            let more = lemma_sum_tail_completes(source, head, Seq::empty(), left);
            let j = passed(left, sum_tail_of(source, head, Seq::empty(), left));
            let end = left.take(j) + more;
            assert(end[0] == left[0]);
            law_product_part(source, cursors, end);
            let part = cursors.take(cursors.len() - left.len());
            lemma_sum_start(source, part + end, head, end);
            assert(cursors.take(k) + more =~= part + end);
            more
        },
    }
}

#[verifier::spinoff_prover]
#[verifier::rlimit(40)]
proof fn lemma_sum_tail_completes(
    source: Seq<char>,
    head: ProductTree,
    tail: Seq<(Cursor, ProductTree)>,
    cursors: Seq<Cursor>,
) -> (more: Seq<Cursor>)
    requires
        sum_tail_of(source, head, tail, cursors) is Stuck,
    ensures
        0 < passed(cursors, sum_tail_of(source, head, tail, cursors)) <= cursors.len(),
        whole(
            sum_tail_of(
                source,
                head,
                tail,
                cursors.take(passed(cursors, sum_tail_of(source, head, tail, cursors))) + more,
            ),
        ),
    decreases cursors.len(), 0int,
{
    let inside = cursors.drop_first();
    let op = cursors[0];
    lemma_product_leaves(source, inside);
    let k = passed(cursors, sum_tail_of(source, head, tail, cursors));
    match product_of(source, inside) {
        Outcome::Stuck(left) => {
            let more = lemma_product_completes(source, inside);
            let all = inside.take(k - 1) + more;
            let rhs = product_of(source, all)->Read_0;
            let none = product_of(source, all).left();
            lemma_sum_tail_step(source, head, tail, op, all, rhs, none);
            assert(cursors.take(k) + more =~= seq![op] + all);
            more
        },
        Outcome::Read(rhs, left) => {
            let longer = tail.push((spaced(op), rhs));
            assert(sum_tail_of(source, head, tail, cursors) == sum_tail_of(
                source,
                head,
                longer,
                left,
            ));
            let more = lemma_sum_tail_completes(source, head, longer, left);
            let j = passed(left, sum_tail_of(source, head, longer, left));
            let end = left.take(j) + more;
            assert(end[0] == left[0]);
            law_product_part(source, inside, end);
            let all = inside.take(inside.len() - left.len()) + end;
            lemma_sum_tail_step(source, head, tail, op, all, rhs, end);
            assert(left =~= cursors.skip(cursors.len() - left.len()));
            lemma_apart(cursors, left, j, more);
            assert(cursors.take(k) + more == seq![op] + all);
            more
        },
    }
}

/// Going on behind one argument and its comma, and ending behind one without.
proof fn lemma_args_step(
    source: Seq<char>,
    single: bool,
    before: Seq<ArgTree>,
    cursors: Seq<Cursor>,
    sum: SumTree,
    left: Seq<Cursor>,
)
    requires
        sum_of(source, cursors) == Outcome::Read(sum, left),
        left.len() <= cursors.len(),
    ensures
        !single && starts_with(left, Kind::Comma) ==> args_of(source, single, before, cursors)
            == args_of(
            source,
            single,
            before.push(ArgTree { sum, trailing_comma: Some(left[0]) }),
            left.drop_first(),
        ),
        single || !starts_with(left, Kind::Comma) ==> args_of(source, single, before, cursors)
            == Outcome::Read(before.push(ArgTree { sum, trailing_comma: None }), left),
{
}

#[verifier::spinoff_prover]
#[verifier::rlimit(40)]
proof fn lemma_args_complete(
    source: Seq<char>,
    single: bool,
    before: Seq<ArgTree>,
    cursors: Seq<Cursor>,
    close: Cursor,
) -> (more: Seq<Cursor>)
    requires
        args_of(source, single, before, cursors) is Stuck,
        close.kind() == Kind::RightParen,
    ensures
        0 <= passed(cursors, args_of(source, single, before, cursors)) <= cursors.len(),
        ({
            let k = passed(cursors, args_of(source, single, before, cursors));
            let outcome = args_of(source, single, before, cursors.take(k) + more + seq![close]);
            outcome is Read && outcome.left() == seq![close]
        }),
    decreases cursors.len(), 4int,
{
    lemma_sum_leaves(source, cursors);
    let k = passed(cursors, args_of(source, single, before, cursors));
    let end = seq![close];
    match sum_of(source, cursors) {
        Outcome::Stuck(left) => {
            let more = lemma_sum_completes(source, cursors);
            let all = cursors.take(k) + more;
            let sum = sum_of(source, all)->Read_0;
            law_sum_part(source, all, end);
            assert(all.take(all.len() as int) =~= all);
            lemma_args_step(source, single, before, all + end, sum, end);
            more
        },
        Outcome::Read(sum, left) => {
            lemma_args_step(source, single, before, cursors, sum, left);
            let longer = before.push(ArgTree { sum, trailing_comma: Some(left[0]) });
            let others = left.drop_first();
            let more = lemma_args_complete(source, single, longer, others, close);
            let j = passed(others, args_of(source, single, longer, others));
            let rest = others.take(j) + more + end;
            let behind = seq![left[0]] + rest;
            law_sum_part(source, cursors, behind);
            let part = cursors.take(cursors.len() - left.len());
            lemma_args_step(source, single, before, part + behind, sum, behind);
            assert(behind.drop_first() =~= rest);
            lemma_apart(cursors, left, j + 1, more + end);
            assert(left.take(j + 1) =~= seq![left[0]] + others.take(j));
            assert(left.take(j + 1) + (more + end) =~= behind);
            assert(cursors.take(k) + (more + end) =~= cursors.take(k) + more + end);
            more
        },
    }
}

#[verifier::spinoff_prover]
#[verifier::rlimit(40)]
proof fn lemma_expression_completes(source: Seq<char>, cursors: Seq<Cursor>) -> (more: Seq<Cursor>)
    requires
        expression_of(source, cursors) is Stuck,
        cursors.len() > 0,
        opens_math(source, cursors[0]),
    ensures
        0 < passed(cursors, expression_of(source, cursors)) <= cursors.len(),
        whole(
            expression_of(
                source,
                cursors.take(passed(cursors, expression_of(source, cursors))) + more,
            ),
        ),
    decreases cursors.len(), 0int,
{
    let inside = cursors.drop_first();
    let single = opens_calc(source, cursors[0]);
    let close = some_cursor(Kind::RightParen);
    let end = seq![close];
    lemma_expression_leaves(source, cursors);
    let k = passed(cursors, expression_of(source, cursors));
    match args_of(source, single, Seq::empty(), inside) {
        Outcome::Stuck(left) => {
            let inner = lemma_args_complete(source, single, Seq::empty(), inside, close);
            let more = inner + end;
            let all = cursors.take(k) + more;
            assert(all.drop_first() =~= inside.take(k - 1) + inner + end);
            assert(all[0] == cursors[0]);
            more
        },
        Outcome::Read(args, left) => {
            let u = lemma_args_written(source, single, Seq::empty(), inside);
            lemma_args_read_back(source, single, Seq::empty(), u, end);
            let all = cursors.take(k) + end;
            assert(inside.take(k - 1) =~= args_cursors(u));
            assert(all.drop_first() =~= args_cursors(u) + end);
            assert(all[0] == cursors[0]);
            end
        },
    }
}

/// Reading gets stuck no sooner than it has to: where an expression opens, the cursors before the
/// one that reading gets stuck at can be gone on with to an expression that is read whole.
pub proof fn law_stuck_no_sooner(source: Seq<char>, cursors: Seq<Cursor>) -> (more: Seq<Cursor>)
    requires
        cursors.len() > 0,
        opens_math(source, cursors[0]),
    ensures
        match expression_of(source, cursors) {
            Outcome::Read(_, _) => true,
            Outcome::Stuck(left) => {
                let front = cursors.take(cursors.len() - left.len());
                &&& 0 < front.len()
                &&& cursors == front + left
                &&& expression_of(source, front + more) is Read
                &&& expression_of(source, front + more).left() == Seq::<Cursor>::empty()
            },
        },
{
    lemma_expression_leaves(source, cursors);
    match expression_of(source, cursors) {
        Outcome::Read(_, _) => Seq::empty(),
        Outcome::Stuck(left) => {
            let more = lemma_expression_completes(source, cursors);
            let front = cursors.take(cursors.len() - left.len());
            assert(cursors =~= front + left);
            assert(expression_of(source, front + more).left() =~= Seq::<Cursor>::empty());
            more
        },
    }
}

} // verus!
