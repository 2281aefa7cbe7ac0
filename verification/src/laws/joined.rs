//! Lists are written, and set between whitespace, part by part.
use vstd::prelude::*;

use crate::cursor::Cursor;
use crate::spacing::{
    lemma_spaced_args_at, lemma_spaced_product_tail_at, lemma_spaced_sum_tail_at, spaced_args,
    spaced_product, spaced_product_tail, spaced_sum, spaced_sum_tail, spaced_value,
};
use crate::grammar::spaced;
use crate::tree::{
    args_cursors, product_cursors, product_tail_cursors, sum_cursors, sum_tail_cursors,
    value_cursors, ArgTree, ProductTree, ValueTree,
};

verus! {

/// Two lists of operators and values, one behind the other, are written one behind the other, and
/// a single operator with its value is written as the two stand.
pub proof fn law_product_tail_joined(
    a: Seq<(Cursor, ValueTree)>,
    b: Seq<(Cursor, ValueTree)>,
    op: Cursor,
    value: ValueTree,
)
    ensures
        product_tail_cursors(a + b) == product_tail_cursors(a) + product_tail_cursors(b),
        product_tail_cursors(seq![(op, value)]) == seq![op] + value_cursors(value),
        product_tail_cursors(Seq::empty()) == Seq::<Cursor>::empty(),
    decreases a.len(),
{
    assert(seq![(op, value)].drop_first() =~= Seq::empty());
    reveal_with_fuel(product_tail_cursors, 2);
    assert(product_tail_cursors(seq![(op, value)]) =~= seq![op] + value_cursors(value));
    if a.len() == 0 {
        assert(a + b =~= b);
        assert(product_tail_cursors(a) + product_tail_cursors(b) =~= product_tail_cursors(b));
    } else {
        assert((a + b).drop_first() =~= a.drop_first() + b);
        law_product_tail_joined(a.drop_first(), b, op, value);
        assert(product_tail_cursors(a + b) =~= product_tail_cursors(a) + product_tail_cursors(b));
    }
}

/// Two lists of operators and products, one behind the other, are written one behind the other, and
/// a single operator with its product is written as the two stand.
pub proof fn law_sum_tail_joined(
    a: Seq<(Cursor, ProductTree)>,
    b: Seq<(Cursor, ProductTree)>,
    op: Cursor,
    product: ProductTree,
)
    ensures
        sum_tail_cursors(a + b) == sum_tail_cursors(a) + sum_tail_cursors(b),
        sum_tail_cursors(seq![(op, product)]) == seq![op] + product_cursors(product),
        sum_tail_cursors(Seq::empty()) == Seq::<Cursor>::empty(),
    decreases a.len(),
{
    assert(seq![(op, product)].drop_first() =~= Seq::empty());
    reveal_with_fuel(sum_tail_cursors, 2);
    assert(sum_tail_cursors(seq![(op, product)]) =~= seq![op] + product_cursors(product));
    if a.len() == 0 {
        assert(a + b =~= b);
        assert(sum_tail_cursors(a) + sum_tail_cursors(b) =~= sum_tail_cursors(b));
    } else {
        assert((a + b).drop_first() =~= a.drop_first() + b);
        law_sum_tail_joined(a.drop_first(), b, op, product);
        assert(sum_tail_cursors(a + b) =~= sum_tail_cursors(a) + sum_tail_cursors(b));
    }
}

/// Two lists of arguments, one behind the other, are written one behind the other, and a single
/// argument is written as its sum with the comma behind it, if it has one.
pub proof fn law_args_joined(a: Seq<ArgTree>, b: Seq<ArgTree>, arg: ArgTree)
    ensures
        args_cursors(a + b) == args_cursors(a) + args_cursors(b),
        arg.trailing_comma is None ==> args_cursors(seq![arg]) == sum_cursors(arg.sum),
        arg.trailing_comma is Some ==> args_cursors(seq![arg]) == sum_cursors(arg.sum).push(
            arg.trailing_comma->0,
        ),
        args_cursors(Seq::empty()) == Seq::<Cursor>::empty(),
    decreases a.len(),
{
    assert(seq![arg].drop_first() =~= Seq::empty());
    reveal_with_fuel(args_cursors, 2);
    if arg.trailing_comma is None {
        assert(args_cursors(seq![arg]) =~= sum_cursors(arg.sum));
    } else {
        assert(args_cursors(seq![arg]) =~= sum_cursors(arg.sum).push(arg.trailing_comma->0));
    }
    if a.len() == 0 {
        assert(a + b =~= b);
        assert(args_cursors(a) + args_cursors(b) =~= args_cursors(b));
    } else {
        assert((a + b).drop_first() =~= a.drop_first() + b);
        law_args_joined(a.drop_first(), b, arg);
        assert(args_cursors(a + b) =~= args_cursors(a) + args_cursors(b));
    }
}

/// What one more operator and value adds to a product.
pub proof fn lemma_one_more_value(tail: Seq<(Cursor, ValueTree)>, op: Cursor, value: ValueTree)
    ensures
        product_tail_cursors(tail.push((op, value))) == product_tail_cursors(tail) + seq![op]
            + value_cursors(value),
        spaced_product_tail(tail.push((op, value))) == spaced_product_tail(tail).push(
            (op, spaced_value(value)),
        ),
{
    let longer = tail.push((op, value));
    law_product_tail_joined(tail, seq![(op, value)], op, value);
    assert(longer =~= tail + seq![(op, value)]);
    assert(product_tail_cursors(longer) =~= product_tail_cursors(tail) + seq![op] + value_cursors(
        value,
    ));
    lemma_spaced_product_tail_at(tail);
    lemma_spaced_product_tail_at(longer);
    assert(spaced_product_tail(longer) =~= spaced_product_tail(tail).push(
        (op, spaced_value(value)),
    ));
}

/// What one more operator and product adds to a sum.
pub proof fn lemma_one_more_product(
    tail: Seq<(Cursor, ProductTree)>,
    op: Cursor,
    product: ProductTree,
)
    ensures
        sum_tail_cursors(tail.push((op, product))) == sum_tail_cursors(tail) + seq![op]
            + product_cursors(product),
        spaced_sum_tail(tail.push((op, product))) == spaced_sum_tail(tail).push(
            (spaced(op), spaced_product(product)),
        ),
{
    let longer = tail.push((op, product));
    law_sum_tail_joined(tail, seq![(op, product)], op, product);
    assert(longer =~= tail + seq![(op, product)]);
    assert(sum_tail_cursors(longer) =~= sum_tail_cursors(tail) + seq![op] + product_cursors(
        product,
    ));
    lemma_spaced_sum_tail_at(tail);
    lemma_spaced_sum_tail_at(longer);
    assert(spaced_sum_tail(longer) =~= spaced_sum_tail(tail).push(
        (spaced(op), spaced_product(product)),
    ));
}

/// What one more argument adds to a list of them.
pub proof fn lemma_one_more_arg(args: Seq<ArgTree>, arg: ArgTree)
    ensures
        arg.trailing_comma is None ==> args_cursors(args.push(arg)) == args_cursors(args)
            + sum_cursors(arg.sum),
        arg.trailing_comma is Some ==> args_cursors(args.push(arg)) == args_cursors(args)
            + sum_cursors(arg.sum) + seq![arg.trailing_comma->0],
        spaced_args(args.push(arg)) == spaced_args(args).push(
            ArgTree { sum: spaced_sum(arg.sum), trailing_comma: arg.trailing_comma },
        ),
{
    let longer = args.push(arg);
    law_args_joined(args, seq![arg], arg);
    assert(longer =~= args + seq![arg]);
    if arg.trailing_comma is Some {
        assert(args_cursors(longer) =~= args_cursors(args) + sum_cursors(arg.sum) + seq![
            arg.trailing_comma->0,
        ]);
    }
    lemma_spaced_args_at(args);
    lemma_spaced_args_at(longer);
    assert(spaced_args(longer) =~= spaced_args(args).push(
        ArgTree { sum: spaced_sum(arg.sum), trailing_comma: arg.trailing_comma },
    ));
}

} // verus!
