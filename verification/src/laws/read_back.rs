//! What is written according to the grammar is read back.
use vstd::prelude::*;

use crate::cursor::Cursor;
use crate::grammar::{
    args_fit, args_of, block_fits, block_of, expression_fits, expression_of, opens_calc,
    parens_fits, parens_of, product_fits, product_of, product_tail_of, starts_with,
    starts_with_product_op, starts_with_sum_op, sum_fits, sum_of, sum_tail_of, value_fits, value_of,
    Outcome,
};
use crate::laws::pairing::law_function_read;
use crate::spacing::{
    spaced_args, spaced_expression, spaced_parens, spaced_product, spaced_product_tail, spaced_sum,
    spaced_sum_tail, spaced_value,
};
use crate::token::Kind;
use crate::tree::{
    args_cursors, block_cursors, comma_cursors, expression_cursors, parens_cursors, product_cursors,
    product_tail_cursors, sum_cursors, sum_tail_cursors, value_cursors, ArgTree, BlockTree,
    ExpressionTree, ParensTree, ProductTree, SumTree, ValueTree,
};

verus! {

/// A function in which brackets pair up, written out with anything behind it, is read back.
pub proof fn lemma_block_read_back(t: BlockTree, rest: Seq<Cursor>)
    requires
        block_fits(t),
    ensures
        block_of(block_cursors(t) + rest) == Outcome::Read(t, rest),
{
    law_function_read(t.name, t.params, t.close, rest);
}

/// Every value is written with at least one cursor.
proof fn lemma_value_cursors_some(t: ValueTree)
    ensures
        value_cursors(t).len() > 0,
{
}

proof fn lemma_product_cursors_some(t: ProductTree)
    ensures
        product_cursors(t).len() > 0,
{
    lemma_value_cursors_some(t.head);
}

proof fn lemma_sum_cursors_some(t: SumTree)
    ensures
        sum_cursors(t).len() > 0,
{
    lemma_product_cursors_some(t.head);
}

/// A grammatical value, written out with anything behind it, is read back.
pub proof fn lemma_value_read_back(source: Seq<char>, t: ValueTree, rest: Seq<Cursor>)
    requires
        value_fits(source, t),
    ensures
        value_of(source, value_cursors(t) + rest) == Outcome::Read(spaced_value(t), rest),
    decreases t,
{
    let cursors = value_cursors(t) + rest;
    match t {
        ValueTree::Number(c) => {
            assert(cursors.drop_first() =~= rest);
        },
        ValueTree::Dimension(c) => {
            assert(cursors.drop_first() =~= rest);
        },
        ValueTree::Ident(c) => {
            assert(cursors.drop_first() =~= rest);
        },
        ValueTree::Calc(e) => {
            lemma_expression_read_back(source, e, rest);
            assert(cursors[0] == e.name);
        },
        ValueTree::Function(b) => {
            lemma_block_read_back(b, rest);
            assert(cursors[0] == b.name);
        },
        ValueTree::Parens(p) => {
            lemma_parens_read_back(source, p, rest);
            assert(cursors[0] == p.open);
        },
    }
}

/// Grammatical parentheses, written out with anything behind them, are read back.
pub proof fn lemma_parens_read_back(source: Seq<char>, t: ParensTree, rest: Seq<Cursor>)
    requires
        parens_fits(source, t),
    ensures
        parens_of(source, parens_cursors(t) + rest) == Outcome::Read(spaced_parens(t), rest),
    decreases t,
{
    let cursors = parens_cursors(t) + rest;
    let behind = seq![t.close] + rest;
    assert(cursors.drop_first() =~= sum_cursors(*t.sum) + behind);
    lemma_sum_read_back(source, *t.sum, behind);
    assert(behind.drop_first() =~= rest);
}

/// A grammatical product is read back, unless the `*` or `/` behind it would carry it on.
pub proof fn lemma_product_read_back(source: Seq<char>, t: ProductTree, rest: Seq<Cursor>)
    requires
        product_fits(source, t),
        !starts_with_product_op(rest),
    ensures
        product_of(source, product_cursors(t) + rest) == Outcome::Read(spaced_product(t), rest),
    decreases t,
{
    let behind = product_tail_cursors(t.tail) + rest;
    assert(product_cursors(t) + rest =~= value_cursors(t.head) + behind);
    lemma_value_read_back(source, t.head, behind);
    lemma_value_cursors_some(t.head);
    lemma_product_tail_read_back(source, spaced_value(t.head), Seq::empty(), t.tail, rest);
    assert(Seq::empty() + spaced_product_tail(t.tail) =~= spaced_product_tail(t.tail));
}

proof fn lemma_product_tail_read_back(
    source: Seq<char>,
    head: ValueTree,
    before: Seq<(Cursor, ValueTree)>,
    tail: Seq<(Cursor, ValueTree)>,
    rest: Seq<Cursor>,
)
    requires
        forall|i: int|
            0 <= i < tail.len() ==> crate::grammar::is_product_op((#[trigger] tail[i]).0)
                && value_fits(source, tail[i].1),
        !starts_with_product_op(rest),
    ensures
        product_tail_of(source, head, before, product_tail_cursors(tail) + rest) == Outcome::Read(
            ProductTree { head, tail: before + spaced_product_tail(tail) },
            rest,
        ),
    decreases tail,
{
    if tail.len() == 0 {
        assert(product_tail_cursors(tail) + rest =~= rest);
        assert(before + spaced_product_tail(tail) =~= before);
    } else {
        let cursors = product_tail_cursors(tail) + rest;
        let behind = product_tail_cursors(tail.drop_first()) + rest;
        assert(crate::grammar::is_product_op(tail[0].0));
        assert(cursors.drop_first() =~= value_cursors(tail[0].1) + behind);
        lemma_value_read_back(source, tail[0].1, behind);
        let more = before.push((tail[0].0, spaced_value(tail[0].1)));
        assert forall|i: int| 0 <= i < tail.drop_first().len() implies
            crate::grammar::is_product_op((#[trigger] tail.drop_first()[i]).0) && value_fits(
            source,
            tail.drop_first()[i].1,
        ) by {
            assert(tail.drop_first()[i] == tail[i + 1]);
        }
        lemma_product_tail_read_back(source, head, more, tail.drop_first(), rest);
        assert(more + spaced_product_tail(tail.drop_first()) =~= before + spaced_product_tail(tail));
    }
}

/// A grammatical sum is read back, unless the operator behind it would carry it on.
pub proof fn lemma_sum_read_back(source: Seq<char>, t: SumTree, rest: Seq<Cursor>)
    requires
        sum_fits(source, t),
        !starts_with_sum_op(rest),
        !starts_with_product_op(rest),
    ensures
        sum_of(source, sum_cursors(t) + rest) == Outcome::Read(spaced_sum(t), rest),
    decreases t,
{
    let behind = sum_tail_cursors(t.tail) + rest;
    assert(sum_cursors(t) + rest =~= product_cursors(t.head) + behind);
    lemma_no_product_op_behind(source, t.tail, rest);
    lemma_product_read_back(source, t.head, behind);
    lemma_product_cursors_some(t.head);
    lemma_sum_tail_read_back(source, spaced_product(t.head), Seq::empty(), t.tail, rest);
    assert(Seq::empty() + spaced_sum_tail(t.tail) =~= spaced_sum_tail(t.tail));
}

proof fn lemma_no_product_op_behind(
    source: Seq<char>,
    tail: Seq<(Cursor, ProductTree)>,
    rest: Seq<Cursor>,
)
    requires
        forall|i: int|
            0 <= i < tail.len() ==> crate::grammar::is_sum_op((#[trigger] tail[i]).0)
                && product_fits(source, tail[i].1),
        !starts_with_product_op(rest),
    ensures
        !starts_with_product_op(sum_tail_cursors(tail) + rest),
{
    if tail.len() == 0 {
        assert(sum_tail_cursors(tail) + rest =~= rest);
    } else {
        assert((sum_tail_cursors(tail) + rest)[0] == tail[0].0);
        assert(crate::grammar::is_sum_op(tail[0].0));
    }
}

proof fn lemma_sum_tail_read_back(
    source: Seq<char>,
    head: ProductTree,
    before: Seq<(Cursor, ProductTree)>,
    tail: Seq<(Cursor, ProductTree)>,
    rest: Seq<Cursor>,
)
    requires
        forall|i: int|
            0 <= i < tail.len() ==> crate::grammar::is_sum_op((#[trigger] tail[i]).0)
                && product_fits(source, tail[i].1),
        !starts_with_sum_op(rest),
        !starts_with_product_op(rest),
    ensures
        sum_tail_of(source, head, before, sum_tail_cursors(tail) + rest) == Outcome::Read(
            SumTree { head, tail: before + spaced_sum_tail(tail) },
            rest,
        ),
    decreases tail,
{
    if tail.len() == 0 {
        assert(sum_tail_cursors(tail) + rest =~= rest);
        assert(before + spaced_sum_tail(tail) =~= before);
    } else {
        let cursors = sum_tail_cursors(tail) + rest;
        let behind = sum_tail_cursors(tail.drop_first()) + rest;
        assert(crate::grammar::is_sum_op(tail[0].0));
        assert(cursors.drop_first() =~= product_cursors(tail[0].1) + behind);
        assert forall|i: int| 0 <= i < tail.drop_first().len() implies crate::grammar::is_sum_op(
            (#[trigger] tail.drop_first()[i]).0,
        ) && product_fits(source, tail.drop_first()[i].1) by {
            assert(tail.drop_first()[i] == tail[i + 1]);
        }
        lemma_no_product_op_behind(source, tail.drop_first(), rest);
        lemma_product_read_back(source, tail[0].1, behind);
        let more = before.push(
            (crate::grammar::spaced(tail[0].0), spaced_product(tail[0].1)),
        );
        lemma_sum_tail_read_back(source, head, more, tail.drop_first(), rest);
        assert(more + spaced_sum_tail(tail.drop_first()) =~= before + spaced_sum_tail(tail));
    }
}

/// Grammatical arguments are read back in front of a closing parenthesis.
pub proof fn lemma_args_read_back(
    source: Seq<char>,
    single: bool,
    before: Seq<ArgTree>,
    args: Seq<ArgTree>,
    rest: Seq<Cursor>,
)
    requires
        args_fit(source, single, args),
        starts_with(rest, Kind::RightParen),
    ensures
        args_of(source, single, before, args_cursors(args) + rest) == Outcome::Read(
            before + spaced_args(args),
            rest,
        ),
    decreases args,
{
    let cursors = args_cursors(args) + rest;
    let first = args[0];
    let others = args.drop_first();
    let behind = comma_cursors(first.trailing_comma) + args_cursors(others) + rest;
    assert(sum_fits(source, first.sum));
    assert(cursors =~= sum_cursors(first.sum) + behind);
    lemma_sum_cursors_some(first.sum);
    if args.len() == 1 {
        assert(args_cursors(others) =~= Seq::empty());
        assert(behind =~= rest);
        lemma_sum_read_back(source, first.sum, behind);
        assert(spaced_args(others) =~= Seq::empty());
        assert(before + spaced_args(args) =~= before.push(
            ArgTree { sum: spaced_sum(first.sum), trailing_comma: None },
        ));
    } else {
        assert(behind[0] == first.trailing_comma->0);
        lemma_sum_read_back(source, first.sum, behind);
        assert(behind.drop_first() =~= args_cursors(others) + rest);
        let more = before.push(
            ArgTree { sum: spaced_sum(first.sum), trailing_comma: first.trailing_comma },
        );
        assert forall|i: int| 0 <= i < others.len() implies sum_fits(
            source,
            #[trigger] others[i].sum,
        ) && crate::grammar::comma_fits(others[i].trailing_comma, i == others.len() - 1) by {
            assert(sum_fits(source, args[i + 1].sum));
        }
        lemma_args_read_back(source, single, more, others, rest);
        assert(more + spaced_args(others) =~= before + spaced_args(args));
    }
}

/// A grammatical expression, written out with anything behind it, is read back.
pub proof fn lemma_expression_read_back(source: Seq<char>, t: ExpressionTree, rest: Seq<Cursor>)
    requires
        expression_fits(source, t),
    ensures
        expression_of(source, expression_cursors(t) + rest) == Outcome::Read(
            spaced_expression(t),
            rest,
        ),
    decreases t,
{
    let cursors = expression_cursors(t) + rest;
    let behind = seq![t.close] + rest;
    let single = opens_calc(source, t.name);
    assert(cursors[0] == t.name);
    assert(cursors.drop_first() =~= args_cursors(t.args) + behind);
    lemma_args_read_back(source, single, Seq::empty(), t.args, behind);
    assert(Seq::empty() + spaced_args(t.args) =~= spaced_args(t.args));
    assert(behind.drop_first() =~= rest);
}

} // verus!
