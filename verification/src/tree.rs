//! Calculations as mathematical values: what they are, which cursors they are written with, which
//! stretch of source they span, and when two of them mean the same.
use vstd::prelude::*;

use crate::cursor::{Cursor, Span};

verus! {

/// `name( arg, .. arg )`
pub struct ExpressionTree {
    pub name: Cursor,
    pub args: Seq<ArgTree>,
    pub close: Cursor,
}

/// One argument, with the comma behind it where there is one.
pub struct ArgTree {
    pub sum: SumTree,
    pub trailing_comma: Option<Cursor>,
}

/// `product [ op product ]*`
pub struct SumTree {
    pub head: ProductTree,
    pub tail: Seq<(Cursor, ProductTree)>,
}

/// `value [ op value ]*`
pub struct ProductTree {
    pub head: ValueTree,
    pub tail: Seq<(Cursor, ValueTree)>,
}

/// A leaf, or something that nests.
pub enum ValueTree {
    Number(Cursor),
    Dimension(Cursor),
    Ident(Cursor),
    Calc(ExpressionTree),
    Function(BlockTree),
    Parens(ParensTree),
}

/// `( sum )`
pub struct ParensTree {
    pub open: Cursor,
    pub sum: Box<SumTree>,
    pub close: Cursor,
}

/// A function that is no math function, with whatever tokens its parentheses hold.
pub struct BlockTree {
    pub name: Cursor,
    pub params: Seq<Cursor>,
    pub close: Cursor,
}

// ---- the cursors a tree is written with, in order ----
/// The name, the arguments and the closing parenthesis.
pub open spec fn expression_cursors(t: ExpressionTree) -> Seq<Cursor>
    decreases t,
{
    seq![t.name] + args_cursors(t.args) + seq![t.close]
}

/// The arguments, each with its comma.
pub open spec fn args_cursors(args: Seq<ArgTree>) -> Seq<Cursor>
    decreases args,
{
    if args.len() == 0 {
        Seq::empty()
    } else {
        sum_cursors(args[0].sum) + comma_cursors(args[0].trailing_comma) + args_cursors(
            args.drop_first(),
        )
    }
}

/// The comma, if there is one.
pub open spec fn comma_cursors(comma: Option<Cursor>) -> Seq<Cursor> {
    match comma {
        Some(c) => seq![c],
        None => Seq::empty(),
    }
}

/// The products with the operators between them.
pub open spec fn sum_cursors(t: SumTree) -> Seq<Cursor>
    decreases t,
{
    product_cursors(t.head) + sum_tail_cursors(t.tail)
}

/// Each operator with the product behind it.
pub open spec fn sum_tail_cursors(tail: Seq<(Cursor, ProductTree)>) -> Seq<Cursor>
    decreases tail,
{
    if tail.len() == 0 {
        Seq::empty()
    } else {
        seq![tail[0].0] + product_cursors(tail[0].1) + sum_tail_cursors(tail.drop_first())
    }
}

/// The values with the operators between them.
pub open spec fn product_cursors(t: ProductTree) -> Seq<Cursor>
    decreases t,
{
    value_cursors(t.head) + product_tail_cursors(t.tail)
}

/// Each operator with the value behind it.
pub open spec fn product_tail_cursors(tail: Seq<(Cursor, ValueTree)>) -> Seq<Cursor>
    decreases tail,
{
    if tail.len() == 0 {
        Seq::empty()
    } else {
        seq![tail[0].0] + value_cursors(tail[0].1) + product_tail_cursors(tail.drop_first())
    }
}

/// The leaf, or the cursors of what nests.
pub open spec fn value_cursors(t: ValueTree) -> Seq<Cursor>
    decreases t,
{
    match t {
        ValueTree::Number(c) => seq![c],
        ValueTree::Dimension(c) => seq![c],
        ValueTree::Ident(c) => seq![c],
        ValueTree::Calc(e) => expression_cursors(e),
        ValueTree::Function(b) => block_cursors(b),
        ValueTree::Parens(p) => parens_cursors(p),
    }
}

/// The parentheses around the sum.
pub open spec fn parens_cursors(t: ParensTree) -> Seq<Cursor>
    decreases t,
{
    seq![t.open] + sum_cursors(*t.sum) + seq![t.close]
}

/// The name, the tokens and the closing parenthesis.
pub open spec fn block_cursors(t: BlockTree) -> Seq<Cursor> {
    seq![t.name] + t.params + seq![t.close]
}

// ---- the stretch of source a tree spans ----
/// From the name to the closing parenthesis.
pub open spec fn expression_span(t: ExpressionTree) -> Span {
    t.name.span.hull(t.close.span)
}

/// From the first product to the last.
pub open spec fn sum_span(t: SumTree) -> Span {
    if t.tail.len() == 0 {
        product_span(t.head)
    } else {
        product_span(t.head).hull(product_span(t.tail.last().1))
    }
}

/// From the first value to the last.
pub open spec fn product_span(t: ProductTree) -> Span {
    if t.tail.len() == 0 {
        value_span(t.head)
    } else {
        value_span(t.head).hull(value_span(t.tail.last().1))
    }
}

/// The span of the leaf, or of what nests.
pub open spec fn value_span(t: ValueTree) -> Span {
    match t {
        ValueTree::Number(c) => c.span,
        ValueTree::Dimension(c) => c.span,
        ValueTree::Ident(c) => c.span,
        ValueTree::Calc(e) => expression_span(e),
        ValueTree::Function(b) => block_span(b),
        ValueTree::Parens(p) => parens_span(p),
    }
}

/// From the opening to the closing parenthesis.
pub open spec fn parens_span(t: ParensTree) -> Span {
    t.open.span.hull(t.close.span)
}

/// From the name to the closing parenthesis.
pub open spec fn block_span(t: BlockTree) -> Span {
    t.name.span.hull(t.close.span)
}

// ---- when two trees mean the same ----
/// The same name and, one by one, the same arguments. Commas and parentheses do not count.
pub open spec fn same_expression(a: ExpressionTree, b: ExpressionTree) -> bool
    decreases a,
{
    &&& a.name.same(b.name)
    &&& a.args.len() == b.args.len()
    &&& forall|i: int| 0 <= i < a.args.len() ==> same_sum(#[trigger] a.args[i].sum, b.args[i].sum)
}

/// One by one, the same products with the same operators between them.
pub open spec fn same_sum(a: SumTree, b: SumTree) -> bool
    decreases a,
{
    &&& same_product(a.head, b.head)
    &&& a.tail.len() == b.tail.len()
    &&& forall|i: int|
        0 <= i < a.tail.len() ==> (#[trigger] a.tail[i]).0.same(b.tail[i].0) && same_product(
            a.tail[i].1,
            b.tail[i].1,
        )
}

/// One by one, the same values with the same operators between them.
pub open spec fn same_product(a: ProductTree, b: ProductTree) -> bool
    decreases a,
{
    &&& same_value(a.head, b.head)
    &&& a.tail.len() == b.tail.len()
    &&& forall|i: int|
        0 <= i < a.tail.len() ==> (#[trigger] a.tail[i]).0.same(b.tail[i].0) && same_value(
            a.tail[i].1,
            b.tail[i].1,
        )
}

/// The same leaf, or two of one sort that mean the same.
pub open spec fn same_value(a: ValueTree, b: ValueTree) -> bool
    decreases a,
{
    match (a, b) {
        (ValueTree::Number(x), ValueTree::Number(y)) => x.same(y),
        (ValueTree::Dimension(x), ValueTree::Dimension(y)) => x.same(y),
        (ValueTree::Ident(x), ValueTree::Ident(y)) => x.same(y),
        (ValueTree::Calc(x), ValueTree::Calc(y)) => same_expression(x, y),
        (ValueTree::Function(x), ValueTree::Function(y)) => same_block(x, y),
        (ValueTree::Parens(x), ValueTree::Parens(y)) => same_parens(x, y),
        _ => false,
    }
}

/// The same sum inside.
pub open spec fn same_parens(a: ParensTree, b: ParensTree) -> bool
    decreases a,
{
    same_sum(*a.sum, *b.sum)
}

/// The same name and, one by one, the same tokens.
pub open spec fn same_block(a: BlockTree, b: BlockTree) -> bool {
    &&& a.name.same(b.name)
    &&& a.params.len() == b.params.len()
    &&& forall|i: int| 0 <= i < a.params.len() ==> (#[trigger] a.params[i]).same(b.params[i])
}

} // verus!
