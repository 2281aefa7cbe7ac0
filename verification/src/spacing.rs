//! Trees with every operator of a sum set between whitespace.
use vstd::prelude::*;

use crate::cursor::Cursor;
use crate::grammar::spaced;
use crate::tree::{ArgTree, ExpressionTree, ParensTree, ProductTree, SumTree, ValueTree};

verus! {

/// The expression with every operator of a sum set between whitespace.
pub open spec fn spaced_expression(t: ExpressionTree) -> ExpressionTree
    decreases t,
{
    ExpressionTree { name: t.name, args: spaced_args(t.args), close: t.close }
}

/// The arguments, with every operator of a sum set between whitespace.
pub open spec fn spaced_args(args: Seq<ArgTree>) -> Seq<ArgTree>
    decreases args,
{
    if args.len() == 0 {
        Seq::empty()
    } else {
        seq![
            ArgTree {
                sum: spaced_sum(args[0].sum),
                trailing_comma: args[0].trailing_comma,
            },
        ] + spaced_args(args.drop_first())
    }
}

/// The sum with its operators, and those of the sums inside it, set between whitespace.
pub open spec fn spaced_sum(t: SumTree) -> SumTree
    decreases t,
{
    SumTree { head: spaced_product(t.head), tail: spaced_sum_tail(t.tail) }
}

/// The operators themselves change here, and nowhere else.
pub open spec fn spaced_sum_tail(tail: Seq<(Cursor, ProductTree)>) -> Seq<(Cursor, ProductTree)>
    decreases tail,
{
    if tail.len() == 0 {
        Seq::empty()
    } else {
        seq![(spaced(tail[0].0), spaced_product(tail[0].1))] + spaced_sum_tail(tail.drop_first())
    }
}

/// The product with every operator of a sum inside it set between whitespace.
pub open spec fn spaced_product(t: ProductTree) -> ProductTree
    decreases t,
{
    ProductTree { head: spaced_value(t.head), tail: spaced_product_tail(t.tail) }
}

/// The operators of the product itself stay as they are.
pub open spec fn spaced_product_tail(tail: Seq<(Cursor, ValueTree)>) -> Seq<(Cursor, ValueTree)>
    decreases tail,
{
    if tail.len() == 0 {
        Seq::empty()
    } else {
        seq![(tail[0].0, spaced_value(tail[0].1))] + spaced_product_tail(tail.drop_first())
    }
}

/// The value with every operator of a sum inside it set between whitespace.
pub open spec fn spaced_value(t: ValueTree) -> ValueTree
    decreases t,
{
    match t {
        ValueTree::Calc(e) => ValueTree::Calc(spaced_expression(e)),
        ValueTree::Parens(p) => ValueTree::Parens(spaced_parens(p)),
        _ => t,
    }
}

/// The parentheses with every operator of a sum inside them set between whitespace.
pub open spec fn spaced_parens(t: ParensTree) -> ParensTree
    decreases t,
{
    ParensTree { open: t.open, sum: Box::new(spaced_sum(*t.sum)), close: t.close }
}

// ---- trees in which every operator of a sum requires whitespace on both sides ----
/// Every operator of a sum requires whitespace before and after it, at any depth.
pub open spec fn expression_enforced(t: ExpressionTree) -> bool
    decreases t,
{
    forall|i: int| 0 <= i < t.args.len() ==> sum_enforced(#[trigger] t.args[i].sum)
}

/// The same of a sum.
pub open spec fn sum_enforced(t: SumTree) -> bool
    decreases t,
{
    &&& product_enforced(t.head)
    &&& forall|i: int|
        0 <= i < t.tail.len() ==> operator_enforced((#[trigger] t.tail[i]).0) && product_enforced(
            t.tail[i].1,
        )
}

/// The cursor requires whitespace before and after it.
pub open spec fn operator_enforced(c: Cursor) -> bool {
    c.token.whitespace.enforce_before && c.token.whitespace.enforce_after
}

/// The same of a product.
pub open spec fn product_enforced(t: ProductTree) -> bool
    decreases t,
{
    &&& value_enforced(t.head)
    &&& forall|i: int| 0 <= i < t.tail.len() ==> value_enforced((#[trigger] t.tail[i]).1)
}

/// The same of a value.
pub open spec fn value_enforced(t: ValueTree) -> bool
    decreases t,
{
    match t {
        ValueTree::Calc(e) => expression_enforced(e),
        ValueTree::Parens(p) => sum_enforced(*p.sum),
        _ => true,
    }
}

/// Spaced values are enforced throughout.
pub proof fn lemma_value_enforced(t: ValueTree)
    ensures
        value_enforced(spaced_value(t)),
    decreases t,
{
    match t {
        ValueTree::Calc(e) => lemma_expression_enforced(e),
        ValueTree::Parens(p) => lemma_sum_enforced(*p.sum),
        _ => {},
    }
}

/// Spaced products are enforced throughout.
pub proof fn lemma_product_enforced(t: ProductTree)
    ensures
        product_enforced(spaced_product(t)),
    decreases t,
{
    lemma_value_enforced(t.head);
    lemma_spaced_product_tail_at(t.tail);
    let s = spaced_product(t);
    assert forall|i: int| 0 <= i < s.tail.len() implies value_enforced((#[trigger] s.tail[i]).1) by {
        assert(decreases_to!(t => t.tail[i].1));
        lemma_value_enforced(t.tail[i].1);
        assert(spaced_product_tail(t.tail)[i] == s.tail[i]);
    }
}

/// Spaced sums are enforced throughout.
pub proof fn lemma_sum_enforced(t: SumTree)
    ensures
        sum_enforced(spaced_sum(t)),
    decreases t,
{
    lemma_product_enforced(t.head);
    lemma_spaced_sum_tail_at(t.tail);
    let s = spaced_sum(t);
    assert forall|i: int| 0 <= i < s.tail.len() implies operator_enforced(
        (#[trigger] s.tail[i]).0,
    ) && product_enforced(s.tail[i].1) by {
        assert(decreases_to!(t => t.tail[i].1));
        lemma_product_enforced(t.tail[i].1);
        assert(spaced_sum_tail(t.tail)[i] == s.tail[i]);
    }
}

/// Spaced expressions are enforced throughout.
pub proof fn lemma_expression_enforced(t: ExpressionTree)
    ensures
        expression_enforced(spaced_expression(t)),
    decreases t,
{
    lemma_spaced_args_at(t.args);
    let s = spaced_expression(t);
    assert forall|i: int| 0 <= i < s.args.len() implies sum_enforced(#[trigger] s.args[i].sum) by {
        assert(decreases_to!(t => t.args[i].sum));
        lemma_sum_enforced(t.args[i].sum);
        assert(spaced_args(t.args)[i] == s.args[i]);
    }
}

// ---- the same, place by place ----
/// Spacing goes argument by argument.
pub proof fn lemma_spaced_args_at(args: Seq<ArgTree>)
    ensures
        spaced_args(args).len() == args.len(),
        forall|i: int|
            0 <= i < args.len() ==> #[trigger] spaced_args(args)[i] == (ArgTree {
                sum: spaced_sum(args[i].sum),
                trailing_comma: args[i].trailing_comma,
            }),
    decreases args.len(),
{
    if args.len() > 0 {
        lemma_spaced_args_at(args.drop_first());
        assert forall|i: int| 0 <= i < args.len() implies #[trigger] spaced_args(args)[i] == (
        ArgTree { sum: spaced_sum(args[i].sum), trailing_comma: args[i].trailing_comma }) by {
            if i > 0 {
                assert(spaced_args(args)[i] == spaced_args(args.drop_first())[i - 1]);
            }
        }
    }
}

/// Spacing goes term by term.
pub proof fn lemma_spaced_sum_tail_at(tail: Seq<(Cursor, ProductTree)>)
    ensures
        spaced_sum_tail(tail).len() == tail.len(),
        forall|i: int|
            0 <= i < tail.len() ==> #[trigger] spaced_sum_tail(tail)[i] == (
                spaced(tail[i].0),
                spaced_product(tail[i].1),
            ),
    decreases tail.len(),
{
    if tail.len() > 0 {
        lemma_spaced_sum_tail_at(tail.drop_first());
        assert forall|i: int| 0 <= i < tail.len() implies #[trigger] spaced_sum_tail(tail)[i] == (
            spaced(tail[i].0),
            spaced_product(tail[i].1),
        ) by {
            if i > 0 {
                assert(spaced_sum_tail(tail)[i] == spaced_sum_tail(tail.drop_first())[i - 1]);
            }
        }
    }
}

/// Spacing goes factor by factor.
pub proof fn lemma_spaced_product_tail_at(tail: Seq<(Cursor, ValueTree)>)
    ensures
        spaced_product_tail(tail).len() == tail.len(),
        forall|i: int|
            0 <= i < tail.len() ==> #[trigger] spaced_product_tail(tail)[i] == (
                tail[i].0,
                spaced_value(tail[i].1),
            ),
    decreases tail.len(),
{
    if tail.len() > 0 {
        lemma_spaced_product_tail_at(tail.drop_first());
        assert forall|i: int|
            0 <= i < tail.len() implies #[trigger] spaced_product_tail(tail)[i] == (
            tail[i].0,
            spaced_value(tail[i].1),
        ) by {
            if i > 0 {
                assert(spaced_product_tail(tail)[i] == spaced_product_tail(tail.drop_first())[i
                    - 1]);
            }
        }
    }
}

} // verus!
