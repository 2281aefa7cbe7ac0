//! Meaning the same is an equivalence: reflexive, symmetric and transitive.
use vstd::prelude::*;

use crate::tree::{
    same_block, same_expression, same_parens, same_product, same_sum, same_value, BlockTree,
    ExpressionTree, ParensTree, ProductTree, SumTree, ValueTree,
};

verus! {

/// Each block means the same as itself, and what means the same may be swapped and chained.
pub proof fn law_same_block(a: BlockTree, b: BlockTree, c: BlockTree)
    ensures
        same_block(a, a),
        same_block(a, b) ==> same_block(b, a),
        same_block(a, b) && same_block(b, c) ==> same_block(a, c),
{
    if same_block(a, b) {
        assert forall|i: int| 0 <= i < b.params.len() implies (#[trigger] b.params[i]).same(
            a.params[i],
        ) by {
            assert(a.params[i].same(b.params[i]));
        }
        if same_block(b, c) {
            assert forall|i: int| 0 <= i < a.params.len() implies (#[trigger] a.params[i]).same(
                c.params[i],
            ) by {
                assert(b.params[i].same(c.params[i]));
            }
        }
    }
}

/// Each value means the same as itself, and what means the same may be swapped and chained.
pub proof fn law_same_value(a: ValueTree, b: ValueTree, c: ValueTree)
    ensures
        same_value(a, a),
        same_value(a, b) ==> same_value(b, a),
        same_value(a, b) && same_value(b, c) ==> same_value(a, c),
    decreases a,
{
    match a {
        ValueTree::Calc(x) => {
            let y = if let ValueTree::Calc(y) = b { y } else { x };
            let z = if let ValueTree::Calc(z) = c { z } else { x };
            law_same_expression(x, y, z);
        },
        ValueTree::Function(x) => {
            let y = if let ValueTree::Function(y) = b { y } else { x };
            let z = if let ValueTree::Function(z) = c { z } else { x };
            law_same_block(x, y, z);
        },
        ValueTree::Parens(x) => {
            let y = if let ValueTree::Parens(y) = b { y } else { x };
            let z = if let ValueTree::Parens(z) = c { z } else { x };
            law_same_parens(x, y, z);
        },
        _ => {},
    }
}

/// The same of parentheses.
pub proof fn law_same_parens(a: ParensTree, b: ParensTree, c: ParensTree)
    ensures
        same_parens(a, a),
        same_parens(a, b) ==> same_parens(b, a),
        same_parens(a, b) && same_parens(b, c) ==> same_parens(a, c),
    decreases a,
{
    law_same_sum(*a.sum, *b.sum, *c.sum);
}

/// Each product means the same as itself, and what means the same may be swapped and chained.
pub proof fn law_same_product(a: ProductTree, b: ProductTree, c: ProductTree)
    ensures
        same_product(a, a),
        same_product(a, b) ==> same_product(b, a),
        same_product(a, b) && same_product(b, c) ==> same_product(a, c),
    decreases a,
{
    law_same_value(a.head, b.head, c.head);
    assert forall|i: int| 0 <= i < a.tail.len() implies {
        &&& same_value((#[trigger] a.tail[i]).1, a.tail[i].1)
        &&& same_value(a.tail[i].1, b.tail[i].1) ==> same_value(b.tail[i].1, a.tail[i].1)
        &&& same_value(a.tail[i].1, b.tail[i].1) && same_value(b.tail[i].1, c.tail[i].1)
            ==> same_value(a.tail[i].1, c.tail[i].1)
    } by {
        assert(decreases_to!(a => a.tail[i].1));
        law_same_value(a.tail[i].1, b.tail[i].1, c.tail[i].1);
    }
    if same_product(a, b) {
        assert forall|i: int| 0 <= i < b.tail.len() implies (#[trigger] b.tail[i]).0.same(
            a.tail[i].0,
        ) && same_value(b.tail[i].1, a.tail[i].1) by {
            assert(a.tail[i].0.same(b.tail[i].0));
        }
        if same_product(b, c) {
            assert forall|i: int| 0 <= i < a.tail.len() implies (#[trigger] a.tail[i]).0.same(
                c.tail[i].0,
            ) && same_value(a.tail[i].1, c.tail[i].1) by {
                assert(b.tail[i].0.same(c.tail[i].0));
            }
        }
    }
}

/// Each sum means the same as itself, and what means the same may be swapped and chained.
pub proof fn law_same_sum(a: SumTree, b: SumTree, c: SumTree)
    ensures
        same_sum(a, a),
        same_sum(a, b) ==> same_sum(b, a),
        same_sum(a, b) && same_sum(b, c) ==> same_sum(a, c),
    decreases a,
{
    law_same_product(a.head, b.head, c.head);
    assert forall|i: int| 0 <= i < a.tail.len() implies {
        &&& same_product((#[trigger] a.tail[i]).1, a.tail[i].1)
        &&& same_product(a.tail[i].1, b.tail[i].1) ==> same_product(b.tail[i].1, a.tail[i].1)
        &&& same_product(a.tail[i].1, b.tail[i].1) && same_product(b.tail[i].1, c.tail[i].1)
            ==> same_product(a.tail[i].1, c.tail[i].1)
    } by {
        assert(decreases_to!(a => a.tail[i].1));
        law_same_product(a.tail[i].1, b.tail[i].1, c.tail[i].1);
    }
    if same_sum(a, b) {
        assert forall|i: int| 0 <= i < b.tail.len() implies (#[trigger] b.tail[i]).0.same(
            a.tail[i].0,
        ) && same_product(b.tail[i].1, a.tail[i].1) by {
            assert(a.tail[i].0.same(b.tail[i].0));
        }
        if same_sum(b, c) {
            assert forall|i: int| 0 <= i < a.tail.len() implies (#[trigger] a.tail[i]).0.same(
                c.tail[i].0,
            ) && same_product(a.tail[i].1, c.tail[i].1) by {
                assert(b.tail[i].0.same(c.tail[i].0));
            }
        }
    }
}

/// Each expression means the same as itself, and what means the same may be swapped and chained.
pub proof fn law_same_expression(a: ExpressionTree, b: ExpressionTree, c: ExpressionTree)
    ensures
        same_expression(a, a),
        same_expression(a, b) ==> same_expression(b, a),
        same_expression(a, b) && same_expression(b, c) ==> same_expression(a, c),
    decreases a,
{
    assert forall|i: int| 0 <= i < a.args.len() implies {
        &&& same_sum(#[trigger] a.args[i].sum, a.args[i].sum)
        &&& same_sum(a.args[i].sum, b.args[i].sum) ==> same_sum(b.args[i].sum, a.args[i].sum)
        &&& same_sum(a.args[i].sum, b.args[i].sum) && same_sum(b.args[i].sum, c.args[i].sum)
            ==> same_sum(a.args[i].sum, c.args[i].sum)
    } by {
        assert(decreases_to!(a => a.args[i].sum));
        law_same_sum(a.args[i].sum, b.args[i].sum, c.args[i].sum);
    }
    if same_expression(a, b) {
        assert forall|i: int| 0 <= i < b.args.len() implies same_sum(
            #[trigger] b.args[i].sum,
            a.args[i].sum,
        ) by {
            assert(same_sum(a.args[i].sum, b.args[i].sum));
        }
        if same_expression(b, c) {
            assert forall|i: int| 0 <= i < a.args.len() implies same_sum(
                #[trigger] a.args[i].sum,
                c.args[i].sum,
            ) by {
                assert(same_sum(b.args[i].sum, c.args[i].sum));
            }
        }
    }
}

} // verus!
