//! Calculations that mean the same are written with the same tokens, and the other way round.
use vstd::prelude::*;

use crate::cursor::{text_at, Cursor};
use crate::grammar::{
    block_fits, expression_fits, expression_of, is_product_op, is_sum_op, parens_fits, product_fits,
    sum_fits, value_fits, Outcome,
};
use crate::laws::{law_lossless_tokens, law_read_is_grammatical};
use crate::laws::alike::{alike, law_expression_alike};
use crate::laws::meaning::law_same_expression;
use crate::laws::read_back::lemma_expression_read_back;
use crate::laws::respacing::lemma_expression_spaced;
use crate::spacing::spaced_expression;
use crate::token::Kind;
use crate::tree::{
    args_cursors, block_cursors, comma_cursors, expression_cursors, parens_cursors, product_cursors,
    product_tail_cursors, same_block, same_expression, same_parens, same_product, same_sum,
    same_value, sum_cursors, sum_tail_cursors, value_cursors, ArgTree, BlockTree, ExpressionTree,
    ParensTree, ProductTree, SumTree, ValueTree,
};

verus! {

/// The same tokens place by place: of one kind and, unless they are commas or parentheses, which
/// say nothing beyond their kind, with the same character and the same meaning.
pub open spec fn same_tokens(a: Seq<Cursor>, b: Seq<Cursor>) -> bool {
    &&& a.len() == b.len()
    &&& forall|i: int|
        #![trigger a[i]]
        #![trigger b[i]]
        0 <= i < a.len() ==> {
            &&& a[i].token.kind == b[i].token.kind
            &&& {
                ||| a[i].token.kind == Kind::Comma
                ||| a[i].token.kind == Kind::LeftParen
                ||| a[i].token.kind == Kind::RightParen
                ||| a[i].token.delim == b[i].token.delim && a[i].token.meaning == b[i].token.meaning
            }
        }
}

/// Every comma and every parenthesis is just that: it has no character and no meaning of its own.
pub open spec fn bare_punctuation(cursors: Seq<Cursor>) -> bool {
    forall|i: int|
        #![trigger cursors[i]]
        0 <= i < cursors.len() && (cursors[i].token.kind == Kind::Comma || cursors[i].token.kind
            == Kind::LeftParen || cursors[i].token.kind == Kind::RightParen)
            ==> cursors[i].token.delim is None && cursors[i].token.meaning == 0
}

proof fn lemma_same_tokens_joined(a: Seq<Cursor>, b: Seq<Cursor>, c: Seq<Cursor>, d: Seq<Cursor>)
    requires
        same_tokens(a, b),
        same_tokens(c, d),
    ensures
        same_tokens(a + c, b + d),
{
    let x = a + c;
    let y = b + d;
    assert forall|i: int| 0 <= i < x.len() implies {
        &&& (#[trigger] x[i]).token.kind == y[i].token.kind
        &&& {
            ||| x[i].token.kind == Kind::Comma
            ||| x[i].token.kind == Kind::LeftParen
            ||| x[i].token.kind == Kind::RightParen
            ||| x[i].token.delim == y[i].token.delim && x[i].token.meaning == y[i].token.meaning
        }
    } by {
        if i < a.len() {
            assert(x[i] == a[i] && y[i] == b[i]);
        } else {
            assert(x[i] == c[i - a.len()] && y[i] == d[i - a.len()]);
        }
    }
}

/// Functions that mean the same hold the same tokens.
pub proof fn law_block_told_apart(a: BlockTree, b: BlockTree)
    requires
        block_fits(a),
        block_fits(b),
        same_block(a, b),
    ensures
        same_tokens(block_cursors(a), block_cursors(b)),
        a.params.len() == b.params.len(),
        forall|i: int|
            0 <= i < a.params.len() ==> {
                &&& (#[trigger] a.params[i]).token.kind == b.params[i].token.kind
                &&& a.params[i].token.delim == b.params[i].token.delim
                &&& a.params[i].token.meaning == b.params[i].token.meaning
            },
{
    assert forall|i: int| #![trigger b.params[i]] 0 <= i < a.params.len() implies a.params[i].same(
        b.params[i],
    ) by {
        assert(a.params[i].same(b.params[i]));
    }
    assert(same_tokens(a.params, b.params));
    lemma_same_tokens_joined(seq![a.name], seq![b.name], a.params, b.params);
    lemma_same_tokens_joined(seq![a.name] + a.params, seq![b.name] + b.params, seq![a.close], seq![
        b.close,
    ]);
}

/// Values that mean the same are written with the same tokens.
pub proof fn law_value_told_apart(s1: Seq<char>, a: ValueTree, s2: Seq<char>, b: ValueTree)
    requires
        value_fits(s1, a),
        value_fits(s2, b),
        same_value(a, b),
    ensures
        same_tokens(value_cursors(a), value_cursors(b)),
    decreases a,
{
    match (a, b) {
        (ValueTree::Calc(x), ValueTree::Calc(y)) => law_expression_told_apart(s1, x, s2, y),
        (ValueTree::Function(x), ValueTree::Function(y)) => law_block_told_apart(x, y),
        (ValueTree::Parens(x), ValueTree::Parens(y)) => law_parens_told_apart(s1, x, s2, y),
        _ => {},
    }
}

/// Parentheses that mean the same are written with the same tokens.
pub proof fn law_parens_told_apart(s1: Seq<char>, a: ParensTree, s2: Seq<char>, b: ParensTree)
    requires
        parens_fits(s1, a),
        parens_fits(s2, b),
        same_parens(a, b),
    ensures
        same_tokens(parens_cursors(a), parens_cursors(b)),
    decreases a,
{
    law_sum_told_apart(s1, *a.sum, s2, *b.sum);
    let inside = sum_cursors(*a.sum);
    let other = sum_cursors(*b.sum);
    lemma_same_tokens_joined(seq![a.open], seq![b.open], inside, other);
    lemma_same_tokens_joined(seq![a.open] + inside, seq![b.open] + other, seq![a.close], seq![
        b.close,
    ]);
}

/// Products that mean the same are written with the same tokens.
pub proof fn law_product_told_apart(s1: Seq<char>, a: ProductTree, s2: Seq<char>, b: ProductTree)
    requires
        product_fits(s1, a),
        product_fits(s2, b),
        same_product(a, b),
    ensures
        same_tokens(product_cursors(a), product_cursors(b)),
    decreases a,
{
    law_value_told_apart(s1, a.head, s2, b.head);
    lemma_product_tail_told_apart(s1, a.tail, s2, b.tail);
    lemma_same_tokens_joined(
        value_cursors(a.head),
        value_cursors(b.head),
        product_tail_cursors(a.tail),
        product_tail_cursors(b.tail),
    );
}

proof fn lemma_product_tail_told_apart(
    s1: Seq<char>,
    a: Seq<(Cursor, ValueTree)>,
    s2: Seq<char>,
    b: Seq<(Cursor, ValueTree)>,
)
    requires
        a.len() == b.len(),
        forall|i: int|
            0 <= i < a.len() ==> is_product_op((#[trigger] a[i]).0) && value_fits(s1, a[i].1),
        forall|i: int|
            0 <= i < b.len() ==> is_product_op((#[trigger] b[i]).0) && value_fits(s2, b[i].1),
        forall|i: int|
            0 <= i < a.len() ==> (#[trigger] a[i]).0.same(b[i].0) && same_value(a[i].1, b[i].1),
    ensures
        same_tokens(product_tail_cursors(a), product_tail_cursors(b)),
    decreases a,
{
    if a.len() > 0 {
        let c = a.drop_first();
        let d = b.drop_first();
        assert forall|i: int| 0 <= i < c.len() implies is_product_op((#[trigger] c[i]).0)
            && value_fits(s1, c[i].1) && c[i].0.same(d[i].0) && same_value(c[i].1, d[i].1) by {
            assert(c[i] == a[i + 1]);
        }
        assert forall|i: int| 0 <= i < d.len() implies is_product_op((#[trigger] d[i]).0)
            && value_fits(s2, d[i].1) by {
            assert(d[i] == b[i + 1]);
        }
        lemma_product_tail_told_apart(s1, c, s2, d);
        assert(a[0].0.same(b[0].0));
        assert(value_fits(s2, b[0].1));
        law_value_told_apart(s1, a[0].1, s2, b[0].1);
        let x = value_cursors(a[0].1);
        let y = value_cursors(b[0].1);
        lemma_same_tokens_joined(seq![a[0].0], seq![b[0].0], x, y);
        lemma_same_tokens_joined(
            seq![a[0].0] + x,
            seq![b[0].0] + y,
            product_tail_cursors(c),
            product_tail_cursors(d),
        );
    }
}

/// Sums that mean the same are written with the same tokens.
pub proof fn law_sum_told_apart(s1: Seq<char>, a: SumTree, s2: Seq<char>, b: SumTree)
    requires
        sum_fits(s1, a),
        sum_fits(s2, b),
        same_sum(a, b),
    ensures
        same_tokens(sum_cursors(a), sum_cursors(b)),
    decreases a,
{
    law_product_told_apart(s1, a.head, s2, b.head);
    lemma_sum_tail_told_apart(s1, a.tail, s2, b.tail);
    lemma_same_tokens_joined(
        product_cursors(a.head),
        product_cursors(b.head),
        sum_tail_cursors(a.tail),
        sum_tail_cursors(b.tail),
    );
}

proof fn lemma_sum_tail_told_apart(
    s1: Seq<char>,
    a: Seq<(Cursor, ProductTree)>,
    s2: Seq<char>,
    b: Seq<(Cursor, ProductTree)>,
)
    requires
        a.len() == b.len(),
        forall|i: int|
            0 <= i < a.len() ==> is_sum_op((#[trigger] a[i]).0) && product_fits(s1, a[i].1),
        forall|i: int|
            0 <= i < b.len() ==> is_sum_op((#[trigger] b[i]).0) && product_fits(s2, b[i].1),
        forall|i: int|
            0 <= i < a.len() ==> (#[trigger] a[i]).0.same(b[i].0) && same_product(a[i].1, b[i].1),
    ensures
        same_tokens(sum_tail_cursors(a), sum_tail_cursors(b)),
    decreases a,
{
    if a.len() > 0 {
        let c = a.drop_first();
        let d = b.drop_first();
        assert forall|i: int| 0 <= i < c.len() implies is_sum_op((#[trigger] c[i]).0)
            && product_fits(s1, c[i].1) && c[i].0.same(d[i].0) && same_product(c[i].1, d[i].1) by {
            assert(c[i] == a[i + 1]);
        }
        assert forall|i: int| 0 <= i < d.len() implies is_sum_op((#[trigger] d[i]).0)
            && product_fits(s2, d[i].1) by {
            assert(d[i] == b[i + 1]);
        }
        lemma_sum_tail_told_apart(s1, c, s2, d);
        assert(a[0].0.same(b[0].0));
        assert(product_fits(s2, b[0].1));
        law_product_told_apart(s1, a[0].1, s2, b[0].1);
        let x = product_cursors(a[0].1);
        let y = product_cursors(b[0].1);
        lemma_same_tokens_joined(seq![a[0].0], seq![b[0].0], x, y);
        lemma_same_tokens_joined(
            seq![a[0].0] + x,
            seq![b[0].0] + y,
            sum_tail_cursors(c),
            sum_tail_cursors(d),
        );
    }
}

proof fn lemma_args_told_apart(s1: Seq<char>, a: Seq<ArgTree>, s2: Seq<char>, b: Seq<ArgTree>)
    requires
        a.len() == b.len(),
        forall|i: int|
            0 <= i < a.len() ==> sum_fits(s1, #[trigger] a[i].sum) && crate::grammar::comma_fits(
                a[i].trailing_comma,
                i == a.len() - 1,
            ),
        forall|i: int|
            0 <= i < b.len() ==> sum_fits(s2, #[trigger] b[i].sum) && crate::grammar::comma_fits(
                b[i].trailing_comma,
                i == b.len() - 1,
            ),
        forall|i: int| 0 <= i < a.len() ==> same_sum(#[trigger] a[i].sum, b[i].sum),
    ensures
        same_tokens(args_cursors(a), args_cursors(b)),
    decreases a,
{
    if a.len() > 0 {
        let c = a.drop_first();
        let d = b.drop_first();
        assert forall|i: int| 0 <= i < c.len() implies sum_fits(s1, #[trigger] c[i].sum)
            && crate::grammar::comma_fits(c[i].trailing_comma, i == c.len() - 1) && same_sum(
            c[i].sum,
            d[i].sum,
        ) by {
            assert(sum_fits(s1, a[i + 1].sum));
        }
        assert forall|i: int| 0 <= i < d.len() implies sum_fits(s2, #[trigger] d[i].sum)
            && crate::grammar::comma_fits(d[i].trailing_comma, i == d.len() - 1) by {
            assert(sum_fits(s2, b[i + 1].sum));
        }
        lemma_args_told_apart(s1, c, s2, d);
        assert(same_sum(a[0].sum, b[0].sum));
        assert(sum_fits(s1, a[0].sum) && sum_fits(s2, b[0].sum));
        law_sum_told_apart(s1, a[0].sum, s2, b[0].sum);
        let x = sum_cursors(a[0].sum);
        let y = sum_cursors(b[0].sum);
        let p = comma_cursors(a[0].trailing_comma);
        let q = comma_cursors(b[0].trailing_comma);
        assert(same_tokens(p, q));
        lemma_same_tokens_joined(x, y, p, q);
        lemma_same_tokens_joined(x + p, y + q, args_cursors(c), args_cursors(d));
    }
}

/// Expressions that mean the same are written with the same tokens, place by place: where any token
/// differs, in any argument and at any depth, they do not mean the same.
pub proof fn law_expression_told_apart(
    s1: Seq<char>,
    a: ExpressionTree,
    s2: Seq<char>,
    b: ExpressionTree,
)
    requires
        expression_fits(s1, a),
        expression_fits(s2, b),
        same_expression(a, b),
    ensures
        same_tokens(expression_cursors(a), expression_cursors(b)),
    decreases a,
{
    lemma_args_told_apart(s1, a.args, s2, b.args);
    let inside = args_cursors(a.args);
    let other = args_cursors(b.args);
    lemma_same_tokens_joined(seq![a.name], seq![b.name], inside, other);
    lemma_same_tokens_joined(seq![a.name] + inside, seq![b.name] + other, seq![a.close], seq![
        b.close,
    ]);
}

/// Two inputs that are read as expressions that mean the same hold the same tokens: as many of them
/// are read, and place by place they are of the same kind and, commas and parentheses aside, have
/// the same character and the same meaning.
pub proof fn law_read_told_apart(s1: Seq<char>, a: Seq<Cursor>, s2: Seq<char>, b: Seq<Cursor>)
    ensures
        match (expression_of(s1, a), expression_of(s2, b)) {
            (Outcome::Read(t, l), Outcome::Read(u, m)) => same_expression(t, u) ==> {
                &&& a.len() - l.len() == b.len() - m.len()
                &&& forall|i: int|
                    #![trigger a[i]]
                    #![trigger b[i]]
                    0 <= i < a.len() - l.len() ==> {
                        &&& a[i].token.kind == b[i].token.kind
                        &&& {
                            ||| a[i].token.kind == Kind::Comma
                            ||| a[i].token.kind == Kind::LeftParen
                            ||| a[i].token.kind == Kind::RightParen
                            ||| a[i].token.delim == b[i].token.delim && a[i].token.meaning
                                == b[i].token.meaning
                        }
                    }
            },
            _ => true,
        },
{
    law_read_is_grammatical(s1, a);
    law_read_is_grammatical(s2, b);
    law_lossless_tokens(s1, a);
    law_lossless_tokens(s2, b);
    match (expression_of(s1, a), expression_of(s2, b)) {
        (Outcome::Read(t, l), Outcome::Read(u, m)) => {
            if same_expression(t, u) {
                law_expression_told_apart(s1, t, s2, u);
                let x = expression_cursors(t);
                let y = expression_cursors(u);
                assert forall|i: int|
                    #![trigger a[i]]
                    #![trigger b[i]]
                    0 <= i < x.len() implies {
                    &&& a[i].token.kind == b[i].token.kind
                    &&& {
                        ||| a[i].token.kind == Kind::Comma
                        ||| a[i].token.kind == Kind::LeftParen
                        ||| a[i].token.kind == Kind::RightParen
                        ||| a[i].token.delim == b[i].token.delim && a[i].token.meaning
                            == b[i].token.meaning
                    }
                } by {
                    assert(x[i].token.kind == a[i].token.kind);
                    assert(y[i].token.kind == b[i].token.kind);
                }
            }
        },
        _ => {},
    }
}

/// Grammatical expressions mean the same exactly if they are written with the same tokens: as many,
/// and place by place of the same kind, with the same character and the same meaning. (Functions
/// with one meaning are taken to have one name.)
pub proof fn law_same_iff_same_tokens(
    s1: Seq<char>,
    a: ExpressionTree,
    s2: Seq<char>,
    b: ExpressionTree,
)
    requires
        expression_fits(s1, a),
        expression_fits(s2, b),
        bare_punctuation(expression_cursors(a)),
        bare_punctuation(expression_cursors(b)),
        forall|i: int, j: int|
            #![trigger expression_cursors(a)[i], expression_cursors(b)[j]]
            0 <= i < expression_cursors(a).len() && 0 <= j < expression_cursors(b).len()
                && expression_cursors(a)[i].token.kind == Kind::Function
                && expression_cursors(b)[j].token.kind == Kind::Function
                && expression_cursors(a)[i].token.meaning
                == expression_cursors(b)[j].token.meaning ==> text_at(
                s1,
                expression_cursors(a)[i].span,
            ) == text_at(s2, expression_cursors(b)[j].span),
    ensures
        same_expression(a, b) <==> {
            &&& expression_cursors(a).len() == expression_cursors(b).len()
            &&& forall|i: int|
                #![trigger expression_cursors(a)[i]]
                0 <= i < expression_cursors(a).len() ==> {
                    &&& expression_cursors(a)[i].token.kind == expression_cursors(b)[i].token.kind
                    &&& expression_cursors(a)[i].token.delim == expression_cursors(b)[i].token.delim
                    &&& expression_cursors(a)[i].token.meaning
                        == expression_cursors(b)[i].token.meaning
                }
        },
{
    let x = expression_cursors(a);
    let y = expression_cursors(b);
    if same_expression(a, b) {
        law_expression_told_apart(s1, a, s2, b);
        assert forall|i: int| #![trigger x[i]] 0 <= i < x.len() implies {
            &&& x[i].token.kind == y[i].token.kind
            &&& x[i].token.delim == y[i].token.delim
            &&& x[i].token.meaning == y[i].token.meaning
        } by {
            assert(y[i].token.kind == x[i].token.kind);
        }
    }
    if x.len() == y.len() && (forall|i: int|
        #![trigger x[i]]
        0 <= i < x.len() ==> {
            &&& x[i].token.kind == y[i].token.kind
            &&& x[i].token.delim == y[i].token.delim
            &&& x[i].token.meaning == y[i].token.meaning
        }) {
        assert forall|i: int| 0 <= i < x.len() implies {
            &&& (#[trigger] x[i]).same(y[i])
            &&& crate::grammar::opens_math(s1, x[i]) == crate::grammar::opens_math(s2, y[i])
            &&& crate::grammar::opens_calc(s1, x[i]) == crate::grammar::opens_calc(s2, y[i])
        } by {
            let other = y[i];
        }
        assert(alike(s1, x, s2, y));
        law_expression_alike(s1, x, s2, y);
        lemma_expression_read_back(s1, a, Seq::empty());
        lemma_expression_read_back(s2, b, Seq::empty());
        assert(x + Seq::empty() =~= x);
        assert(y + Seq::empty() =~= y);
        lemma_expression_spaced(s1, a);
        lemma_expression_spaced(s2, b);
        let c = spaced_expression(a);
        let d = spaced_expression(b);
        law_same_expression(a, c, d);
        law_same_expression(b, d, d);
        law_same_expression(a, d, b);
    }
}

} // verus!
