//! The span of a tree reaches from its first cursor to its last.
use vstd::prelude::*;

use crate::cursor::{Cursor, Span};
use crate::tree::{
    block_cursors, block_span, expression_cursors, expression_span, parens_cursors, parens_span,
    product_cursors, product_span, product_tail_cursors, sum_cursors, sum_span, sum_tail_cursors,
    value_cursors, value_span, BlockTree, ExpressionTree, ParensTree, ProductTree, SumTree,
    ValueTree,
};

verus! {

/// The cursors stand one behind the other: none starts or ends before an earlier one does.
pub open spec fn in_source_order(cursors: Seq<Cursor>) -> bool {
    forall|i: int, j: int|
        #![trigger cursors[i], cursors[j]]
        0 <= i <= j < cursors.len() ==> cursors[i].span.start <= cursors[j].span.start
            && cursors[i].span.end <= cursors[j].span.end
}

/// From the start of the first cursor to the end of the last.
pub open spec fn extent(cursors: Seq<Cursor>) -> Span {
    Span { start: cursors.first().span.start, end: cursors.last().span.end }
}

/// Whether the span reaches over both others and no further than it has to.
pub open spec fn just_over(span: Span, a: Span, b: Span) -> bool {
    &&& span.start <= a.start && span.start <= b.start
    &&& span.start == a.start || span.start == b.start
    &&& span.end >= a.end && span.end >= b.end
    &&& span.end == a.end || span.end == b.end
}

/// Two spans put together reach over both, and no further than they have to.
pub proof fn law_hull(a: Span, b: Span)
    ensures
        just_over(a.hull(b), a, b),
        a.hull(b).covers(a) && a.hull(b).covers(b),
        forall|c: Span| #[trigger] c.covers(a) && c.covers(b) ==> c.covers(a.hull(b)),
{
}

/// Wherever its cursors stand, an expression, parentheses or a function spans its first and its
/// last cursor, and a sum or a product its first and its last part; just so far and no further.
pub proof fn law_spans_reach(
    e: ExpressionTree,
    s: SumTree,
    p: ProductTree,
    v: ParensTree,
    b: BlockTree,
)
    ensures
        just_over(expression_span(e), e.name.span, e.close.span),
        just_over(parens_span(v), v.open.span, v.close.span),
        just_over(block_span(b), b.name.span, b.close.span),
        s.tail.len() == 0 ==> sum_span(s) == product_span(s.head),
        s.tail.len() > 0 ==> just_over(
            sum_span(s),
            product_span(s.head),
            product_span(s.tail[s.tail.len() - 1].1),
        ),
        p.tail.len() == 0 ==> product_span(p) == value_span(p.head),
        p.tail.len() > 0 ==> just_over(
            product_span(p),
            value_span(p.head),
            value_span(p.tail[p.tail.len() - 1].1),
        ),
{
}

/// A part of cursors in source order is in source order.
proof fn lemma_part_in_order(a: Seq<Cursor>, b: Seq<Cursor>, c: Seq<Cursor>)
    requires
        in_source_order(a + b + c),
    ensures
        in_source_order(b),
{
    let all = a + b + c;
    assert forall|i: int, j: int| #![trigger b[i], b[j]] 0 <= i <= j < b.len() implies
        b[i].span.start <= b[j].span.start && b[i].span.end <= b[j].span.end by {
        assert(all[a.len() + i] == b[i]);
        assert(all[a.len() + j] == b[j]);
    }
}

/// What stands between two cursors in source order is bounded by them.
proof fn lemma_ends_reach(cursors: Seq<Cursor>)
    requires
        cursors.len() > 0,
        in_source_order(cursors),
    ensures
        cursors.first().span.hull(cursors.last().span) == extent(cursors),
{
    assert(cursors[0].span.start <= cursors[cursors.len() - 1].span.start);
}

/// The span of a function whose cursors are in source order reaches from its first cursor to its
/// last.
pub proof fn law_block_span(t: BlockTree)
    requires
        in_source_order(block_cursors(t)),
    ensures
        block_span(t) == extent(block_cursors(t)),
{
    lemma_ends_reach(block_cursors(t));
}

/// The span of parentheses whose cursors are in source order reaches from the one to the other.
pub proof fn law_parens_span(t: ParensTree)
    requires
        in_source_order(parens_cursors(t)),
    ensures
        parens_span(t) == extent(parens_cursors(t)),
{
    lemma_ends_reach(parens_cursors(t));
}

/// The span of an expression whose cursors are in source order reaches from its first cursor to
/// its last.
pub proof fn law_expression_span(t: ExpressionTree)
    requires
        in_source_order(expression_cursors(t)),
    ensures
        expression_span(t) == extent(expression_cursors(t)),
{
    lemma_ends_reach(expression_cursors(t));
}

/// The span of a value whose cursors are in source order reaches from its first cursor to its last.
pub proof fn law_value_span(t: ValueTree)
    requires
        in_source_order(value_cursors(t)),
    ensures
        value_span(t) == extent(value_cursors(t)),
        value_cursors(t).len() > 0,
{
    match t {
        ValueTree::Calc(e) => law_expression_span(e),
        ValueTree::Function(b) => law_block_span(b),
        ValueTree::Parens(p) => law_parens_span(p),
        _ => {},
    }
}

/// What follows the head of a product ends with the last value.
proof fn lemma_product_tail_ends(tail: Seq<(Cursor, ValueTree)>)
    requires
        tail.len() > 0,
    ensures
        exists|before: Seq<Cursor>|
            #![trigger before + value_cursors(tail.last().1)]
            before.len() > 0 && product_tail_cursors(tail) == before + value_cursors(tail.last().1),
    decreases tail.len(),
{
    let others = tail.drop_first();
    let front = seq![tail[0].0] + value_cursors(tail[0].1);
    if others.len() == 0 {
        let before = seq![tail[0].0];
        assert(product_tail_cursors(others) =~= Seq::empty());
        assert(product_tail_cursors(tail) =~= before + value_cursors(tail.last().1));
    } else {
        lemma_product_tail_ends(others);
        assert(others.last() == tail.last());
        let rest = choose|rest: Seq<Cursor>|
            #![trigger rest + value_cursors(others.last().1)]
            rest.len() > 0 && product_tail_cursors(others) == rest + value_cursors(others.last().1);
        let before = front + rest;
        assert(product_tail_cursors(tail) =~= before + value_cursors(tail.last().1));
    }
}

/// The span of a product whose cursors are in source order reaches from its first cursor to its
/// last.
pub proof fn law_product_span(t: ProductTree)
    requires
        in_source_order(product_cursors(t)),
    ensures
        product_span(t) == extent(product_cursors(t)),
        product_cursors(t).len() > 0,
{
    let all = product_cursors(t);
    let head = value_cursors(t.head);
    assert(Seq::empty() + head + product_tail_cursors(t.tail) =~= all);
    lemma_part_in_order(Seq::empty(), head, product_tail_cursors(t.tail));
    law_value_span(t.head);
    assert(all[0] == head[0]);
    if t.tail.len() == 0 {
        assert(all =~= head);
    } else {
        lemma_product_tail_ends(t.tail);
        let last = value_cursors(t.tail.last().1);
        let before = choose|before: Seq<Cursor>|
            #![trigger before + value_cursors(t.tail.last().1)]
            before.len() > 0 && product_tail_cursors(t.tail) == before + value_cursors(t.tail.last().1);
        assert(all =~= head + before + last);
        assert(head + before + last + Seq::empty() =~= all);
        lemma_part_in_order(head + before, last, Seq::empty());
        law_value_span(t.tail.last().1);
        assert(all.last() == last.last());
        assert(all[head.len() - 1] == head.last());
        assert(all[(head.len() + before.len()) as int] == last.first());
        assert(all[0].span.start <= all[(head.len() + before.len()) as int].span.start);
        assert(all[head.len() - 1].span.end <= all[all.len() - 1].span.end);
    }
}

/// What follows the head of a sum ends with the last product.
proof fn lemma_sum_tail_ends(tail: Seq<(Cursor, ProductTree)>)
    requires
        tail.len() > 0,
    ensures
        exists|before: Seq<Cursor>|
            #![trigger before + product_cursors(tail.last().1)]
            before.len() > 0 && sum_tail_cursors(tail) == before + product_cursors(tail.last().1),
    decreases tail.len(),
{
    let others = tail.drop_first();
    let front = seq![tail[0].0] + product_cursors(tail[0].1);
    if others.len() == 0 {
        let before = seq![tail[0].0];
        assert(sum_tail_cursors(others) =~= Seq::empty());
        assert(sum_tail_cursors(tail) =~= before + product_cursors(tail.last().1));
    } else {
        lemma_sum_tail_ends(others);
        assert(others.last() == tail.last());
        let rest = choose|rest: Seq<Cursor>|
            #![trigger rest + product_cursors(others.last().1)]
            rest.len() > 0 && sum_tail_cursors(others) == rest + product_cursors(others.last().1);
        let before = front + rest;
        assert(sum_tail_cursors(tail) =~= before + product_cursors(tail.last().1));
    }
}

/// The span of a sum whose cursors are in source order reaches from its first cursor to its
/// last.
pub proof fn law_sum_span(t: SumTree)
    requires
        in_source_order(sum_cursors(t)),
    ensures
        sum_span(t) == extent(sum_cursors(t)),
        sum_cursors(t).len() > 0,
{
    let all = sum_cursors(t);
    let head = product_cursors(t.head);
    assert(Seq::empty() + head + sum_tail_cursors(t.tail) =~= all);
    lemma_part_in_order(Seq::empty(), head, sum_tail_cursors(t.tail));
    law_product_span(t.head);
    assert(all[0] == head[0]);
    if t.tail.len() == 0 {
        assert(all =~= head);
    } else {
        lemma_sum_tail_ends(t.tail);
        let last = product_cursors(t.tail.last().1);
        let before = choose|before: Seq<Cursor>|
            #![trigger before + product_cursors(t.tail.last().1)]
            before.len() > 0 && sum_tail_cursors(t.tail) == before + product_cursors(t.tail.last().1);
        assert(all =~= head + before + last);
        assert(head + before + last + Seq::empty() =~= all);
        lemma_part_in_order(head + before, last, Seq::empty());
        law_product_span(t.tail.last().1);
        assert(all.last() == last.last());
        assert(all[head.len() - 1] == head.last());
        assert(all[(head.len() + before.len()) as int] == last.first());
        assert(all[0].span.start <= all[(head.len() + before.len()) as int].span.start);
        assert(all[head.len() - 1].span.end <= all[all.len() - 1].span.end);
    }
}

} // verus!
