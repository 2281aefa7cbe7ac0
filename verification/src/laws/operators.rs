//! Products are held together by `*` and `/`, sums by `+` and `-`, and by nothing else.
use vstd::prelude::*;

use crate::cursor::Cursor;
use crate::grammar::{
    expression_fits, expression_of, opens_math, parens_of, product_fits, product_of, sum_fits,
    sum_of, value_fits, value_of, Outcome,
};
use crate::laws::law_read_is_grammatical;
use crate::laws::lookahead::{lemma_sum_leaves, lemma_value_leaves};
use crate::token::Kind;
use crate::tree::{ExpressionTree, ParensTree, ProductTree, SumTree, ValueTree};

verus! {

/// In the expression, at any depth, every operator of a product is a `*` or a `/`, and every
/// operator of a sum is a `+` or a `-`.
pub open spec fn held_together(t: ExpressionTree) -> bool
    decreases t,
{
    forall|i: int| 0 <= i < t.args.len() ==> sum_held_together(#[trigger] t.args[i].sum)
}

/// The same of a sum.
pub open spec fn sum_held_together(t: SumTree) -> bool
    decreases t,
{
    &&& product_held_together(t.head)
    &&& forall|i: int|
        #![trigger t.tail[i]]
        0 <= i < t.tail.len() ==> {
            &&& t.tail[i].0.token.kind == Kind::Delim
            &&& t.tail[i].0.token.delim == Some('+') || t.tail[i].0.token.delim == Some('-')
            &&& product_held_together(t.tail[i].1)
        }
}

/// The same of a product.
pub open spec fn product_held_together(t: ProductTree) -> bool
    decreases t,
{
    &&& value_held_together(t.head)
    &&& forall|i: int|
        #![trigger t.tail[i]]
        0 <= i < t.tail.len() ==> {
            &&& t.tail[i].0.token.kind == Kind::Delim
            &&& t.tail[i].0.token.delim == Some('*') || t.tail[i].0.token.delim == Some('/')
            &&& value_held_together(t.tail[i].1)
        }
}

/// The same of a value.
pub open spec fn value_held_together(t: ValueTree) -> bool
    decreases t,
{
    match t {
        ValueTree::Calc(e) => held_together(e),
        ValueTree::Parens(p) => sum_held_together(*p.sum),
        _ => true,
    }
}

proof fn lemma_value_held_together(source: Seq<char>, t: ValueTree)
    requires
        value_fits(source, t),
    ensures
        value_held_together(t),
    decreases t,
{
    match t {
        ValueTree::Calc(e) => lemma_held_together(source, e),
        ValueTree::Parens(p) => lemma_sum_held_together(source, *p.sum),
        _ => {},
    }
}

proof fn lemma_product_held_together(source: Seq<char>, t: ProductTree)
    requires
        product_fits(source, t),
    ensures
        product_held_together(t),
    decreases t,
{
    lemma_value_held_together(source, t.head);
    assert forall|i: int| #![trigger t.tail[i]] 0 <= i < t.tail.len() implies value_held_together(
        t.tail[i].1,
    ) by {
        assert(decreases_to!(t => t.tail[i].1));
        lemma_value_held_together(source, t.tail[i].1);
    }
}

proof fn lemma_sum_held_together(source: Seq<char>, t: SumTree)
    requires
        sum_fits(source, t),
    ensures
        sum_held_together(t),
    decreases t,
{
    lemma_product_held_together(source, t.head);
    assert forall|i: int| #![trigger t.tail[i]] 0 <= i < t.tail.len() implies product_held_together(
        t.tail[i].1,
    ) by {
        assert(decreases_to!(t => t.tail[i].1));
        lemma_product_held_together(source, t.tail[i].1);
    }
}

proof fn lemma_held_together(source: Seq<char>, t: ExpressionTree)
    requires
        expression_fits(source, t),
    ensures
        held_together(t),
    decreases t,
{
    assert forall|i: int| 0 <= i < t.args.len() implies sum_held_together(
        #[trigger] t.args[i].sum,
    ) by {
        assert(decreases_to!(t => t.args[i].sum));
        lemma_sum_held_together(source, t.args[i].sum);
    }
}

/// In every expression that is read, at any depth, the operators of products are `*` and `/`, and
/// those of sums are `+` and `-`.
pub proof fn law_operators_read(source: Seq<char>, cursors: Seq<Cursor>)
    ensures
        match expression_of(source, cursors) {
            Outcome::Read(t, left) => held_together(t),
            Outcome::Stuck(_) => true,
        },
{
    law_read_is_grammatical(source, cursors);
    if let Outcome::Read(t, left) = expression_of(source, cursors) {
        lemma_held_together(source, t);
    }
}

/// Where a delimiter that is none of the four follows a value, product and sum end in front of it,
/// and an expression or parentheses that would have to go on get stuck at it.
pub proof fn law_other_delimiters_stick(source: Seq<char>, opener: Cursor, cursors: Seq<Cursor>)
    ensures
        match value_of(source, cursors) {
            Outcome::Read(v, left) => {
                left.len() > 0 && left[0].token.kind == Kind::Delim && left[0].token.delim != Some(
                    '*',
                ) && left[0].token.delim != Some('/') && left[0].token.delim != Some('+')
                    && left[0].token.delim != Some('-') ==> {
                    let product = ProductTree { head: v, tail: Seq::empty() };
                    &&& product_of(source, cursors) == Outcome::Read(product, left)
                    &&& sum_of(source, cursors) == Outcome::Read(
                        SumTree { head: product, tail: Seq::empty() },
                        left,
                    )
                    &&& opens_math(source, opener) ==> expression_of(source, seq![opener] + cursors)
                        == Outcome::<ExpressionTree>::Stuck(left)
                    &&& opener.token.kind == Kind::LeftParen ==> parens_of(
                        source,
                        seq![opener] + cursors,
                    ) == Outcome::<ParensTree>::Stuck(left)
                }
            },
            Outcome::Stuck(_) => true,
        },
{
    lemma_value_leaves(source, cursors);
    assert((seq![opener] + cursors).drop_first() =~= cursors);
}

/// No sum is followed by a delimiter of its own: whatever delimiter is left behind one, an
/// expression or parentheses around it get stuck there.
pub proof fn law_delimiters_behind_sums_stick(
    source: Seq<char>,
    opener: Cursor,
    cursors: Seq<Cursor>,
)
    ensures
        match sum_of(source, cursors) {
            Outcome::Read(s, left) => {
                left.len() > 0 && left[0].token.kind == Kind::Delim ==> {
                    &&& opens_math(source, opener) ==> expression_of(source, seq![opener] + cursors)
                        == Outcome::<ExpressionTree>::Stuck(left)
                    &&& opener.token.kind == Kind::LeftParen ==> parens_of(
                        source,
                        seq![opener] + cursors,
                    ) == Outcome::<ParensTree>::Stuck(left)
                }
            },
            Outcome::Stuck(_) => true,
        },
{
    lemma_sum_leaves(source, cursors);
    assert((seq![opener] + cursors).drop_first() =~= cursors);
}

} // verus!
