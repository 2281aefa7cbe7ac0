//! Setting the operators of sums between whitespace changes nothing else.
use vstd::prelude::*;

use crate::cursor::Cursor;
use crate::grammar::{
    comma_fits, expression_fits, is_product_op, is_sum_op, parens_fits, product_fits, spaced,
    sum_fits, value_fits,
};
use crate::spacing::{
    lemma_spaced_args_at, lemma_spaced_product_tail_at, lemma_spaced_sum_tail_at, spaced_args,
    spaced_expression, spaced_parens, spaced_product, spaced_product_tail, spaced_sum,
    spaced_sum_tail, spaced_value,
};
use crate::tree::{
    args_cursors, comma_cursors, expression_cursors, parens_cursors, product_cursors,
    product_tail_cursors, same_expression, same_parens, same_product, same_sum, same_value,
    sum_cursors, sum_tail_cursors, value_cursors, ArgTree, ExpressionTree, ParensTree, ProductTree,
    SumTree, ValueTree,
};

verus! {

/// The same cursors, but that a `+` or a `-` may have come to require whitespace on both sides.
pub open spec fn respaced(from: Seq<Cursor>, to: Seq<Cursor>) -> bool {
    &&& from.len() == to.len()
    &&& forall|i: int|
        #![trigger to[i]]
        0 <= i < from.len() ==> to[i] == from[i] || (is_sum_op(from[i]) && to[i] == spaced(from[i]))
}

proof fn lemma_respaced_add(a: Seq<Cursor>, b: Seq<Cursor>, c: Seq<Cursor>, d: Seq<Cursor>)
    requires
        respaced(a, b),
        respaced(c, d),
    ensures
        respaced(a + c, b + d),
{
    assert forall|i: int| #![trigger (b + d)[i]] 0 <= i < (a + c).len() implies (b + d)[i] == (a
        + c)[i] || (is_sum_op((a + c)[i]) && (b + d)[i] == spaced((a + c)[i])) by {
        if i < a.len() {
            assert((b + d)[i] == b[i]);
        } else {
            assert((b + d)[i] == d[i - a.len()]);
        }
    }
}

/// Spacing a value keeps its meaning and its grammar, touches only operators of sums, and is done
/// once and for all.
pub proof fn lemma_value_spaced(source: Seq<char>, t: ValueTree)
    ensures
        same_value(t, spaced_value(t)),
        spaced_value(spaced_value(t)) == spaced_value(t),
        value_fits(source, t) ==> value_fits(source, spaced_value(t)),
        value_fits(source, t) ==> respaced(value_cursors(t), value_cursors(spaced_value(t))),
    decreases t,
{
    match t {
        ValueTree::Calc(e) => {
            lemma_expression_spaced(source, e);
        },
        ValueTree::Parens(p) => {
            lemma_parens_spaced(source, p);
        },
        _ => {},
    }
}

/// Spacing parentheses keeps their meaning and grammar, touches only operators of sums, and is done
/// once and for all.
pub proof fn lemma_parens_spaced(source: Seq<char>, t: ParensTree)
    ensures
        same_parens(t, spaced_parens(t)),
        spaced_parens(spaced_parens(t)) == spaced_parens(t),
        parens_fits(source, t) ==> parens_fits(source, spaced_parens(t)),
        parens_fits(source, t) ==> respaced(parens_cursors(t), parens_cursors(spaced_parens(t))),
    decreases t,
{
    lemma_sum_spaced(source, *t.sum);
    if parens_fits(source, t) {
        let inside = sum_cursors(*t.sum);
        let inside2 = sum_cursors(spaced_sum(*t.sum));
        lemma_respaced_add(seq![t.open], seq![t.open], inside, inside2);
        lemma_respaced_add(seq![t.open] + inside, seq![t.open] + inside2, seq![t.close], seq![
            t.close,
        ]);
    }
}

/// Spacing a product keeps its meaning and its grammar, touches only operators of sums, and is done
/// once and for all.
pub proof fn lemma_product_spaced(source: Seq<char>, t: ProductTree)
    ensures
        same_product(t, spaced_product(t)),
        spaced_product(spaced_product(t)) == spaced_product(t),
        product_fits(source, t) ==> product_fits(source, spaced_product(t)),
        product_fits(source, t) ==> respaced(product_cursors(t), product_cursors(spaced_product(t))),
    decreases t,
{
    let s = spaced_product(t);
    lemma_value_spaced(source, t.head);
    lemma_spaced_product_tail_at(t.tail);
    lemma_spaced_product_tail_at(s.tail);
    assert forall|i: int| 0 <= i < t.tail.len() implies {
        &&& (#[trigger] t.tail[i]).0.same(s.tail[i].0)
        &&& same_value(t.tail[i].1, s.tail[i].1)
        &&& spaced_value(s.tail[i].1) == s.tail[i].1
        &&& value_fits(source, t.tail[i].1) ==> value_fits(source, s.tail[i].1)
    } by {
        assert(decreases_to!(t => t.tail[i].1));
        assert(spaced_product_tail(t.tail)[i] == s.tail[i]);
        lemma_value_spaced(source, t.tail[i].1);
    }
    assert(spaced_product_tail(s.tail) =~= s.tail) by {
        assert forall|i: int| 0 <= i < s.tail.len() implies spaced_product_tail(s.tail)[i]
            == #[trigger] s.tail[i] by {
            assert(t.tail[i].0.same(s.tail[i].0));
            assert(spaced_product_tail(t.tail)[i] == s.tail[i]);
        }
    }
    if product_fits(source, t) {
        assert forall|i: int| 0 <= i < s.tail.len() implies is_product_op((#[trigger] s.tail[i]).0)
            && value_fits(source, s.tail[i].1) by {
            assert(spaced_product_tail(t.tail)[i] == s.tail[i]);
            assert(is_product_op(t.tail[i].0));
        }
        lemma_product_tail_respaced(source, t.tail);
        lemma_respaced_add(
            value_cursors(t.head),
            value_cursors(s.head),
            product_tail_cursors(t.tail),
            product_tail_cursors(s.tail),
        );
    }
}

proof fn lemma_product_tail_respaced(source: Seq<char>, tail: Seq<(Cursor, ValueTree)>)
    requires
        forall|i: int|
            0 <= i < tail.len() ==> is_product_op((#[trigger] tail[i]).0) && value_fits(
                source,
                tail[i].1,
            ),
    ensures
        respaced(product_tail_cursors(tail), product_tail_cursors(spaced_product_tail(tail))),
    decreases tail,
{
    if tail.len() > 0 {
        let others = tail.drop_first();
        assert forall|i: int| 0 <= i < others.len() implies is_product_op((#[trigger] others[i]).0)
            && value_fits(source, others[i].1) by {
            assert(others[i] == tail[i + 1]);
        }
        lemma_product_tail_respaced(source, others);
        assert(is_product_op(tail[0].0));
        lemma_value_spaced(source, tail[0].1);
        let s = spaced_product_tail(tail);
        assert(s.drop_first() =~= spaced_product_tail(others));
        let op = seq![tail[0].0];
        let op2 = seq![s[0].0];
        let rhs = value_cursors(tail[0].1);
        let rhs2 = value_cursors(s[0].1);
        lemma_respaced_add(op, op2, rhs, rhs2);
        lemma_respaced_add(op + rhs, op2 + rhs2, product_tail_cursors(others), product_tail_cursors(
            spaced_product_tail(others),
        ));
    }
}

/// Spacing a sum keeps its meaning and its grammar, touches only operators of sums, and is done
/// once and for all.
pub proof fn lemma_sum_spaced(source: Seq<char>, t: SumTree)
    ensures
        same_sum(t, spaced_sum(t)),
        spaced_sum(spaced_sum(t)) == spaced_sum(t),
        sum_fits(source, t) ==> sum_fits(source, spaced_sum(t)),
        sum_fits(source, t) ==> respaced(sum_cursors(t), sum_cursors(spaced_sum(t))),
    decreases t,
{
    let s = spaced_sum(t);
    lemma_product_spaced(source, t.head);
    lemma_spaced_sum_tail_at(t.tail);
    lemma_spaced_sum_tail_at(s.tail);
    assert forall|i: int| 0 <= i < t.tail.len() implies {
        &&& (#[trigger] t.tail[i]).0.same(s.tail[i].0)
        &&& same_product(t.tail[i].1, s.tail[i].1)
        &&& spaced_product(s.tail[i].1) == s.tail[i].1
        &&& product_fits(source, t.tail[i].1) ==> product_fits(source, s.tail[i].1)
    } by {
        assert(decreases_to!(t => t.tail[i].1));
        assert(spaced_sum_tail(t.tail)[i] == s.tail[i]);
        lemma_product_spaced(source, t.tail[i].1);
    }
    assert(spaced_sum_tail(s.tail) =~= s.tail) by {
        assert forall|i: int| 0 <= i < s.tail.len() implies spaced_sum_tail(s.tail)[i]
            == #[trigger] s.tail[i] by {
            assert(t.tail[i].0.same(s.tail[i].0));
            assert(spaced_sum_tail(t.tail)[i] == s.tail[i]);
        }
    }
    if sum_fits(source, t) {
        assert forall|i: int| 0 <= i < s.tail.len() implies is_sum_op((#[trigger] s.tail[i]).0)
            && product_fits(source, s.tail[i].1) by {
            assert(spaced_sum_tail(t.tail)[i] == s.tail[i]);
            assert(is_sum_op(t.tail[i].0));
        }
        lemma_sum_tail_respaced(source, t.tail);
        lemma_respaced_add(
            product_cursors(t.head),
            product_cursors(s.head),
            sum_tail_cursors(t.tail),
            sum_tail_cursors(s.tail),
        );
    }
}

proof fn lemma_sum_tail_respaced(source: Seq<char>, tail: Seq<(Cursor, ProductTree)>)
    requires
        forall|i: int|
            0 <= i < tail.len() ==> is_sum_op((#[trigger] tail[i]).0) && product_fits(
                source,
                tail[i].1,
            ),
    ensures
        respaced(sum_tail_cursors(tail), sum_tail_cursors(spaced_sum_tail(tail))),
    decreases tail,
{
    if tail.len() > 0 {
        let others = tail.drop_first();
        assert forall|i: int| 0 <= i < others.len() implies is_sum_op((#[trigger] others[i]).0)
            && product_fits(source, others[i].1) by {
            assert(others[i] == tail[i + 1]);
        }
        lemma_sum_tail_respaced(source, others);
        assert(is_sum_op(tail[0].0));
        lemma_product_spaced(source, tail[0].1);
        let s = spaced_sum_tail(tail);
        assert(s.drop_first() =~= spaced_sum_tail(others));
        let op = seq![tail[0].0];
        let op2 = seq![s[0].0];
        let rhs = product_cursors(tail[0].1);
        let rhs2 = product_cursors(s[0].1);
        lemma_respaced_add(op, op2, rhs, rhs2);
        lemma_respaced_add(op + rhs, op2 + rhs2, sum_tail_cursors(others), sum_tail_cursors(
            spaced_sum_tail(others),
        ));
    }
}

proof fn lemma_args_respaced(source: Seq<char>, args: Seq<ArgTree>)
    requires
        forall|i: int| 0 <= i < args.len() ==> sum_fits(source, #[trigger] args[i].sum),
    ensures
        respaced(args_cursors(args), args_cursors(spaced_args(args))),
    decreases args,
{
    if args.len() > 0 {
        let others = args.drop_first();
        assert forall|i: int| 0 <= i < others.len() implies sum_fits(
            source,
            #[trigger] others[i].sum,
        ) by {
            assert(sum_fits(source, args[i + 1].sum));
        }
        lemma_args_respaced(source, others);
        assert(sum_fits(source, args[0].sum));
        lemma_sum_spaced(source, args[0].sum);
        let s = spaced_args(args);
        assert(s.drop_first() =~= spaced_args(others));
        let comma = comma_cursors(args[0].trailing_comma);
        let first = sum_cursors(args[0].sum);
        let first2 = sum_cursors(s[0].sum);
        lemma_respaced_add(first, first2, comma, comma);
        lemma_respaced_add(first + comma, first2 + comma, args_cursors(others), args_cursors(
            spaced_args(others),
        ));
    }
}

/// Spacing an expression keeps its meaning and its grammar, touches only operators of sums, and is done
/// once and for all.
pub proof fn lemma_expression_spaced(source: Seq<char>, t: ExpressionTree)
    ensures
        same_expression(t, spaced_expression(t)),
        spaced_expression(spaced_expression(t)) == spaced_expression(t),
        expression_fits(source, t) ==> expression_fits(source, spaced_expression(t)),
        expression_fits(source, t) ==> respaced(
            expression_cursors(t),
            expression_cursors(spaced_expression(t)),
        ),
    decreases t,
{
    let s = spaced_expression(t);
    lemma_spaced_args_at(t.args);
    lemma_spaced_args_at(s.args);
    assert forall|i: int| 0 <= i < t.args.len() implies {
        &&& same_sum(#[trigger] t.args[i].sum, s.args[i].sum)
        &&& spaced_sum(s.args[i].sum) == s.args[i].sum
        &&& sum_fits(source, t.args[i].sum) ==> sum_fits(source, s.args[i].sum)
    } by {
        assert(decreases_to!(t => t.args[i].sum));
        assert(spaced_args(t.args)[i] == s.args[i]);
        lemma_sum_spaced(source, t.args[i].sum);
    }
    assert(spaced_args(s.args) =~= s.args) by {
        assert forall|i: int| 0 <= i < s.args.len() implies spaced_args(s.args)[i]
            == #[trigger] s.args[i] by {
            assert(same_sum(t.args[i].sum, s.args[i].sum));
        }
    }
    if expression_fits(source, t) {
        assert forall|i: int| 0 <= i < s.args.len() implies sum_fits(
            source,
            #[trigger] s.args[i].sum,
        ) && comma_fits(s.args[i].trailing_comma, i == s.args.len() - 1) by {
            assert(sum_fits(source, t.args[i].sum));
            assert(same_sum(t.args[i].sum, s.args[i].sum));
            assert(spaced_args(t.args)[i] == s.args[i]);
        }
        lemma_args_respaced(source, t.args);
        let inside = args_cursors(t.args);
        let inside2 = args_cursors(s.args);
        lemma_respaced_add(seq![t.name], seq![t.name], inside, inside2);
        lemma_respaced_add(seq![t.name] + inside, seq![t.name] + inside2, seq![t.close], seq![
            t.close,
        ]);
    }
}

} // verus!
