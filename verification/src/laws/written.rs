//! What is read was written according to the grammar.
use vstd::prelude::*;

use crate::cursor::Cursor;
use crate::grammar::{
    args_fit, args_of, block_fits, block_of, comma_fits, expression_fits, expression_of,
    is_product_op, is_sum_op, opens_calc, parens_fits, parens_of, product_fits, product_of,
    product_tail_of, scan, spaced, starts_with, starts_with_product_op, starts_with_sum_op,
    sum_fits, sum_of, sum_tail_of, value_fits, value_of, Outcome,
};
use crate::laws::pairing::law_only_functions_read;
use crate::spacing::{
    spaced_args, spaced_expression, spaced_parens, spaced_product, spaced_product_tail, spaced_sum,
    spaced_sum_tail, spaced_value,
};
use crate::token::Kind;
use crate::tree::{
    args_cursors, block_cursors, expression_cursors, parens_cursors, product_cursors,
    product_tail_cursors, sum_cursors, sum_tail_cursors, value_cursors, ArgTree, ExpressionTree,
    ParensTree, ProductTree, SumTree, ValueTree,
};

verus! {

/// A scan stops within the cursors or right behind them, and at a closer if it says so. It would
/// stop there too if nothing followed.
pub proof fn lemma_scan_stops(cursors: Seq<Cursor>, awaited: Seq<Kind>)
    ensures
        0 <= scan(cursors, awaited).1 <= cursors.len(),
        scan(cursors, awaited).0 ==> scan(cursors, awaited).1 < cursors.len() && scan(
            cursors.take(scan(cursors, awaited).1 + 1),
            awaited,
        ) == scan(cursors, awaited),
    decreases cursors.len(),
{
    if cursors.len() > 0 && awaited.len() > 0 {
        let kind = cursors[0].kind();
        let others = cursors.drop_first();
        let next = if crate::grammar::is_closer(kind) {
            awaited.drop_last()
        } else {
            match crate::grammar::closer_of(kind) {
                Some(closer) => awaited.push(closer),
                None => awaited,
            }
        };
        lemma_scan_stops(others, next);
        let (closed, at) = scan(cursors, awaited);
        if closed {
            let part = cursors.take(at + 1);
            assert(part[0] == cursors[0]);
            if at > 0 {
                assert(part.drop_first() =~= others.take(at));
            }
        }
    }
}

/// A function that is read stands in the input, with brackets that pair up.
pub proof fn lemma_block_written(cursors: Seq<Cursor>)
    ensures
        match block_of(cursors) {
            Outcome::Read(t, left) => block_fits(t) && cursors == block_cursors(t) + left,
            Outcome::Stuck(_) => true,
        },
{
    law_only_functions_read(cursors);
}

/// A value that is read stands in the input, grammatical.
pub proof fn lemma_value_written(source: Seq<char>, cursors: Seq<Cursor>) -> (u: ValueTree)
    ensures
        match value_of(source, cursors) {
            Outcome::Read(t, left) => {
                &&& value_fits(source, u)
                &&& t == spaced_value(u)
                &&& cursors == value_cursors(u) + left
            },
            Outcome::Stuck(_) => true,
        },
    decreases cursors.len(), 1int,
{
    match value_of(source, cursors) {
        Outcome::Read(t, left) => {
            let kind = cursors[0].kind();
            if kind == Kind::Function {
                if crate::grammar::opens_math(source, cursors[0]) {
                    ValueTree::Calc(lemma_expression_written(source, cursors))
                } else {
                    lemma_block_written(cursors);
                    t
                }
            } else if kind == Kind::LeftParen {
                ValueTree::Parens(lemma_parens_written(source, cursors))
            } else {
                assert(cursors =~= seq![cursors[0]] + left);
                t
            }
        },
        Outcome::Stuck(_) => arbitrary(),
    }
}

/// Parentheses that are read stand in the input, grammatical.
pub proof fn lemma_parens_written(source: Seq<char>, cursors: Seq<Cursor>) -> (u: ParensTree)
    ensures
        match parens_of(source, cursors) {
            Outcome::Read(t, left) => {
                &&& parens_fits(source, u)
                &&& t == spaced_parens(u)
                &&& cursors == parens_cursors(u) + left
            },
            Outcome::Stuck(_) => true,
        },
    decreases cursors.len(), 0int,
{
    match parens_of(source, cursors) {
        Outcome::Read(t, left) => {
            let inside = cursors.drop_first();
            let sum = lemma_sum_written(source, inside);
            let u = ParensTree { open: t.open, sum: Box::new(sum), close: t.close };
            assert(cursors =~= seq![cursors[0]] + inside);
            assert(cursors =~= parens_cursors(u) + left);
            u
        },
        Outcome::Stuck(_) => arbitrary(),
    }
}

/// A product that is read stands in the input, grammatical, and no `*` or `/` follows it.
pub proof fn lemma_product_written(source: Seq<char>, cursors: Seq<Cursor>) -> (u: ProductTree)
    ensures
        match product_of(source, cursors) {
            Outcome::Read(t, left) => {
                &&& product_fits(source, u)
                &&& t == spaced_product(u)
                &&& cursors == product_cursors(u) + left
                &&& !starts_with_product_op(left)
            },
            Outcome::Stuck(_) => true,
        },
    decreases cursors.len(), 2int,
{
    match product_of(source, cursors) {
        Outcome::Read(t, left) => {
            let head = lemma_value_written(source, cursors);
            let behind = value_of(source, cursors).left();
            let tail = lemma_product_tail_written(
                source,
                spaced_value(head),
                Seq::empty(),
                behind,
            );
            let u = ProductTree { head, tail };
            assert(Seq::empty() + spaced_product_tail(tail) =~= spaced_product_tail(tail));
            assert(cursors =~= product_cursors(u) + left);
            u
        },
        Outcome::Stuck(_) => arbitrary(),
    }
}

#[verifier::spinoff_prover]
#[verifier::rlimit(30)]
proof fn lemma_product_tail_written(
    source: Seq<char>,
    head: ValueTree,
    before: Seq<(Cursor, ValueTree)>,
    cursors: Seq<Cursor>,
) -> (u: Seq<(Cursor, ValueTree)>)
    ensures
        match product_tail_of(source, head, before, cursors) {
            Outcome::Read(t, left) => {
                &&& forall|i: int|
                    0 <= i < u.len() ==> is_product_op((#[trigger] u[i]).0) && value_fits(
                        source,
                        u[i].1,
                    )
                &&& t == (ProductTree { head, tail: before + spaced_product_tail(u) })
                &&& cursors == product_tail_cursors(u) + left
                &&& !starts_with_product_op(left)
            },
            Outcome::Stuck(_) => true,
        },
    decreases cursors.len(), 0int,
{
    match product_tail_of(source, head, before, cursors) {
        Outcome::Read(t, left) => {
            if starts_with_product_op(cursors) {
                let inside = cursors.drop_first();
                let rhs = lemma_value_written(source, inside);
                let behind = value_of(source, inside).left();
                let more = before.push((cursors[0], spaced_value(rhs)));
                let others = lemma_product_tail_written(source, head, more, behind);
                let u = seq![(cursors[0], rhs)] + others;
                assert(u.drop_first() =~= others);
                assert(before + spaced_product_tail(u) =~= more + spaced_product_tail(others));
                assert(cursors == product_tail_cursors(u) + left) by {
                    let op = seq![cursors[0]];
                    let middle = value_cursors(rhs);
                    let end = product_tail_cursors(others);
                    assert(u[0] == (cursors[0], rhs));
                    assert(product_tail_cursors(u) == op + middle + end);
                    assert(cursors =~= op + inside);
                    assert(inside == middle + (end + left));
                    assert(op + (middle + (end + left)) =~= op + middle + end + left);
                }
                assert forall|i: int| 0 <= i < u.len() implies is_product_op((#[trigger] u[i]).0)
                    && value_fits(source, u[i].1) by {
                    if i > 0 {
                        assert(u[i] == others[i - 1]);
                    }
                }
                u
            } else {
                let u = Seq::<(Cursor, ValueTree)>::empty();
                assert(before + spaced_product_tail(u) =~= before);
                assert(cursors =~= product_tail_cursors(u) + left);
                u
            }
        },
        Outcome::Stuck(_) => arbitrary(),
    }
}

/// A sum that is read stands in the input, grammatical, and no operator follows it.
pub proof fn lemma_sum_written(source: Seq<char>, cursors: Seq<Cursor>) -> (u: SumTree)
    ensures
        match sum_of(source, cursors) {
            Outcome::Read(t, left) => {
                &&& sum_fits(source, u)
                &&& t == spaced_sum(u)
                &&& cursors == sum_cursors(u) + left
                &&& !starts_with_sum_op(left)
                &&& !starts_with_product_op(left)
            },
            Outcome::Stuck(_) => true,
        },
    decreases cursors.len(), 3int,
{
    match sum_of(source, cursors) {
        Outcome::Read(t, left) => {
            let head = lemma_product_written(source, cursors);
            let behind = product_of(source, cursors).left();
            let tail = lemma_sum_tail_written(source, spaced_product(head), Seq::empty(), behind);
            let u = SumTree { head, tail };
            assert(Seq::empty() + spaced_sum_tail(tail) =~= spaced_sum_tail(tail));
            assert(cursors =~= sum_cursors(u) + left);
            u
        },
        Outcome::Stuck(_) => arbitrary(),
    }
}

#[verifier::spinoff_prover]
#[verifier::rlimit(30)]
proof fn lemma_sum_tail_written(
    source: Seq<char>,
    head: ProductTree,
    before: Seq<(Cursor, ProductTree)>,
    cursors: Seq<Cursor>,
) -> (u: Seq<(Cursor, ProductTree)>)
    requires
        !starts_with_product_op(cursors),
    ensures
        match sum_tail_of(source, head, before, cursors) {
            Outcome::Read(t, left) => {
                &&& forall|i: int|
                    0 <= i < u.len() ==> is_sum_op((#[trigger] u[i]).0) && product_fits(
                        source,
                        u[i].1,
                    )
                &&& t == (SumTree { head, tail: before + spaced_sum_tail(u) })
                &&& cursors == sum_tail_cursors(u) + left
                &&& !starts_with_sum_op(left)
                &&& !starts_with_product_op(left)
            },
            Outcome::Stuck(_) => true,
        },
    decreases cursors.len(), 0int,
{
    match sum_tail_of(source, head, before, cursors) {
        Outcome::Read(t, left) => {
            if starts_with_sum_op(cursors) {
                let inside = cursors.drop_first();
                let rhs = lemma_product_written(source, inside);
                let behind = product_of(source, inside).left();
                let more = before.push((spaced(cursors[0]), spaced_product(rhs)));
                let others = lemma_sum_tail_written(source, head, more, behind);
                let u = seq![(cursors[0], rhs)] + others;
                assert(u.drop_first() =~= others);
                assert(before + spaced_sum_tail(u) =~= more + spaced_sum_tail(others));
                assert(cursors == sum_tail_cursors(u) + left) by {
                    let op = seq![cursors[0]];
                    let middle = product_cursors(rhs);
                    let end = sum_tail_cursors(others);
                    assert(u[0] == (cursors[0], rhs));
                    assert(sum_tail_cursors(u) == op + middle + end);
                    assert(cursors =~= op + inside);
                    assert(inside == middle + (end + left));
                    assert(op + (middle + (end + left)) =~= op + middle + end + left);
                }
                assert forall|i: int| 0 <= i < u.len() implies is_sum_op((#[trigger] u[i]).0)
                    && product_fits(source, u[i].1) by {
                    if i > 0 {
                        assert(u[i] == others[i - 1]);
                    }
                }
                u
            } else {
                let u = Seq::<(Cursor, ProductTree)>::empty();
                assert(before + spaced_sum_tail(u) =~= before);
                assert(cursors =~= sum_tail_cursors(u) + left);
                u
            }
        },
        Outcome::Stuck(_) => arbitrary(),
    }
}

/// Arguments that are read stand in the input, grammatical.
pub proof fn lemma_args_written(
    source: Seq<char>,
    single: bool,
    before: Seq<ArgTree>,
    cursors: Seq<Cursor>,
) -> (u: Seq<ArgTree>)
    ensures
        match args_of(source, single, before, cursors) {
            Outcome::Read(t, left) => {
                &&& args_fit(source, single, u)
                &&& t == before + spaced_args(u)
                &&& cursors == args_cursors(u) + left
            },
            Outcome::Stuck(_) => true,
        },
    decreases cursors.len(), 4int,
{
    match args_of(source, single, before, cursors) {
        Outcome::Read(t, left) => {
            let sum = lemma_sum_written(source, cursors);
            let behind = sum_of(source, cursors).left();
            if !single && starts_with(behind, Kind::Comma) {
                let first = ArgTree { sum, trailing_comma: Some(behind[0]) };
                let more = before.push(
                    ArgTree { sum: spaced_sum(sum), trailing_comma: Some(behind[0]) },
                );
                let others = lemma_args_written(source, single, more, behind.drop_first());
                let u = seq![first] + others;
                assert(u.drop_first() =~= others);
                assert(before + spaced_args(u) =~= more + spaced_args(others));
                assert(behind =~= seq![behind[0]] + behind.drop_first());
                assert(cursors =~= args_cursors(u) + left);
                assert forall|i: int| 0 <= i < u.len() implies sum_fits(
                    source,
                    #[trigger] u[i].sum,
                ) && comma_fits(u[i].trailing_comma, i == u.len() - 1) by {
                    if i > 0 {
                        assert(u[i] == others[i - 1]);
                        assert(sum_fits(source, others[i - 1].sum));
                    }
                }
                u
            } else {
                let first = ArgTree { sum, trailing_comma: None };
                let u = seq![first];
                assert(u.drop_first() =~= Seq::empty());
                reveal_with_fuel(spaced_args, 2);
                reveal_with_fuel(args_cursors, 2);
                assert(before + spaced_args(u) =~= t);
                assert(cursors =~= args_cursors(u) + left);
                u
            }
        },
        Outcome::Stuck(_) => arbitrary(),
    }
}

/// An expression that is read stands in the input, grammatical.
pub proof fn lemma_expression_written(source: Seq<char>, cursors: Seq<Cursor>) -> (u: ExpressionTree)
    ensures
        match expression_of(source, cursors) {
            Outcome::Read(t, left) => {
                &&& expression_fits(source, u)
                &&& t == spaced_expression(u)
                &&& cursors == expression_cursors(u) + left
            },
            Outcome::Stuck(_) => true,
        },
    decreases cursors.len(), 0int,
{
    match expression_of(source, cursors) {
        Outcome::Read(t, left) => {
            let inside = cursors.drop_first();
            let single = opens_calc(source, cursors[0]);
            let args = lemma_args_written(source, single, Seq::empty(), inside);
            let u = ExpressionTree { name: t.name, args, close: t.close };
            assert(Seq::empty() + spaced_args(args) =~= spaced_args(args));
            assert(cursors =~= seq![cursors[0]] + inside);
            assert(cursors =~= expression_cursors(u) + left);
            u
        },
        Outcome::Stuck(_) => arbitrary(),
    }
}

} // verus!
