//! What holds of reading and writing calculations, whatever they are.
pub mod alike;
pub mod blame;
pub mod distinct;
pub mod extent;
pub mod joined;
pub mod lookahead;
pub mod meaning;
pub mod naming;
pub mod nodes;
pub mod operators;
pub mod pairing;
pub mod read_back;
pub mod respacing;
pub mod rules;
pub mod trivia;
pub mod written;

use vstd::prelude::*;

use crate::calc::starts_value;
use crate::cursor::Cursor;
use crate::grammar::{
    block_of, expression_fits, expression_of, is_sum_op, opens_calc, opens_math, parens_of, spaced,
    sum_fits, value_of, Outcome,
};
use crate::laws::extent::{extent, in_source_order, law_expression_span};
use crate::laws::lookahead::{
    agree, lemma_expression_leaves, lemma_expression_local, leaves_an_end, passed,
};
use crate::laws::read_back::lemma_expression_read_back;
use crate::laws::respacing::{lemma_expression_spaced, respaced};
use crate::laws::written::lemma_expression_written;
use crate::spacing::{expression_enforced, lemma_expression_enforced, spaced_expression};
use crate::token::{AssociatedWhitespaceRules, Kind};
use crate::tree::{
    expression_cursors, expression_span, same_expression, BlockTree, ExpressionTree, ParensTree,
    ValueTree,
};

verus! {

/// A grammatical expression, written out with anything behind it, is read back: the same
/// expression, with every operator of a sum set between whitespace, and nothing of what follows.
pub proof fn law_written_is_read_back(source: Seq<char>, t: ExpressionTree, rest: Seq<Cursor>)
    requires
        expression_fits(source, t),
    ensures
        expression_of(source, expression_cursors(t) + rest) == Outcome::Read(
            spaced_expression(t),
            rest,
        ),
{
    lemma_expression_read_back(source, t, rest);
}

/// What is read stands in the input: it is a grammatical expression that was written there, with
/// every operator of a sum set between whitespace, and it means what was written.
pub proof fn law_read_was_written(source: Seq<char>, cursors: Seq<Cursor>)
    ensures
        match expression_of(source, cursors) {
            Outcome::Read(t, left) => exists|u: ExpressionTree|
                #![trigger expression_cursors(u)]
                {
                    &&& expression_fits(source, u)
                    &&& cursors == expression_cursors(u) + left
                    &&& t == spaced_expression(u)
                    &&& same_expression(u, t)
                },
            Outcome::Stuck(_) => true,
        },
{
    let u = lemma_expression_written(source, cursors);
    if let Outcome::Read(t, left) = expression_of(source, cursors) {
        lemma_expression_spaced(source, u);
        assert(cursors == expression_cursors(u) + left);
    }
}

/// Reading succeeds exactly where the input starts with a grammatical expression.
pub proof fn law_read_iff_grammatical(source: Seq<char>, cursors: Seq<Cursor>)
    ensures
        expression_of(source, cursors) is Read <==> exists|u: ExpressionTree, rest: Seq<Cursor>|
            #![trigger expression_cursors(u) + rest]
            expression_fits(source, u) && cursors == expression_cursors(u) + rest,
{
    let v = lemma_expression_written(source, cursors);
    if let Outcome::Read(t, left) = expression_of(source, cursors) {
        assert(cursors == expression_cursors(v) + left);
    }
    assert forall|u: ExpressionTree, rest: Seq<Cursor>|
        #![trigger expression_cursors(u) + rest]
        expression_fits(source, u) && cursors == expression_cursors(u)
            + rest implies expression_of(source, cursors) is Read by {
        lemma_expression_read_back(source, u, rest);
    }
}

/// No input starts with two expressions: what they are, but for the whitespace around operators,
/// and what is left behind them is the same.
pub proof fn law_one_reading(
    source: Seq<char>,
    t: ExpressionTree,
    t_rest: Seq<Cursor>,
    u: ExpressionTree,
    u_rest: Seq<Cursor>,
)
    requires
        expression_fits(source, t),
        expression_fits(source, u),
        expression_cursors(t) + t_rest == expression_cursors(u) + u_rest,
    ensures
        spaced_expression(t) == spaced_expression(u),
        t_rest == u_rest,
{
    lemma_expression_read_back(source, t, t_rest);
    lemma_expression_read_back(source, u, u_rest);
}

/// Reading is lossless: an expression is written with the very cursors it was read from, but that
/// the operators of its sums have come to require whitespace.
pub proof fn law_lossless(source: Seq<char>, cursors: Seq<Cursor>)
    ensures
        match expression_of(source, cursors) {
            Outcome::Read(t, left) => {
                let n = cursors.len() - left.len();
                &&& 0 < n <= cursors.len()
                &&& respaced(cursors.take(n), expression_cursors(t))
                &&& left == cursors.skip(n)
            },
            Outcome::Stuck(_) => true,
        },
{
    let u = lemma_expression_written(source, cursors);
    if let Outcome::Read(t, left) = expression_of(source, cursors) {
        let n = cursors.len() - left.len();
        lemma_expression_spaced(source, u);
        assert(cursors.take(n) =~= expression_cursors(u));
        assert(cursors.skip(n) =~= left);
    }
}

/// Each cursor is written with the place, the kind, the character and the meaning that it was read
/// with. Its whitespace rules stay too, unless it is a `+` or a `-` that has come to require
/// whitespace on both sides.
pub proof fn law_lossless_tokens(source: Seq<char>, cursors: Seq<Cursor>)
    ensures
        match expression_of(source, cursors) {
            Outcome::Read(t, left) => {
                let written = expression_cursors(t);
                &&& cursors.len() == written.len() + left.len()
                &&& left == cursors.skip(written.len() as int)
                &&& forall|i: int|
                    #![trigger written[i]]
                    0 <= i < written.len() ==> {
                        &&& written[i].span == cursors[i].span
                        &&& written[i].token.kind == cursors[i].token.kind
                        &&& written[i].token.delim == cursors[i].token.delim
                        &&& written[i].token.meaning == cursors[i].token.meaning
                        &&& written[i].token.whitespace == cursors[i].token.whitespace || {
                            &&& cursors[i].token.kind == Kind::Delim
                            &&& cursors[i].token.delim == Some('+') || cursors[i].token.delim
                                == Some('-')
                            &&& written[i].token.whitespace == (AssociatedWhitespaceRules {
                                enforce_before: true,
                                enforce_after: true,
                                ban_after: false,
                            })
                        }
                    }
            },
            Outcome::Stuck(_) => true,
        },
{
    law_lossless(source, cursors);
    if let Outcome::Read(t, left) = expression_of(source, cursors) {
        let n = cursors.len() - left.len();
        let written = expression_cursors(t);
        assert forall|i: int| #![trigger written[i]] 0 <= i < written.len() implies written[i]
            == cursors[i] || (is_sum_op(cursors[i]) && written[i] == spaced(cursors[i])) by {
            assert(cursors.take(n)[i] == cursors[i]);
        }
    }
}

/// `*` and `/`, and all else but `+` and `-`, are written exactly as they were read.
pub proof fn law_product_operators_untouched(source: Seq<char>, cursors: Seq<Cursor>, i: int)
    ensures
        match expression_of(source, cursors) {
            Outcome::Read(t, left) => 0 <= i < expression_cursors(t).len()
                && !is_sum_op(cursors[i]) ==> expression_cursors(t)[i]
                == cursors[i],
            Outcome::Stuck(_) => true,
        },
{
    law_lossless(source, cursors);
    if let Outcome::Read(t, left) = expression_of(source, cursors) {
        let n = cursors.len() - left.len();
        if 0 <= i < expression_cursors(t).len() {
            assert(cursors.take(n)[i] == cursors[i]);
            assert(expression_cursors(t)[i] == cursors[i] || is_sum_op(cursors[i]));
        }
    }
}

/// Writing what was read and reading it again changes nothing.
pub proof fn law_reading_again(source: Seq<char>, cursors: Seq<Cursor>)
    ensures
        match expression_of(source, cursors) {
            Outcome::Read(t, left) => expression_of(source, expression_cursors(t) + left)
                == Outcome::Read(t, left),
            Outcome::Stuck(_) => true,
        },
{
    let u = lemma_expression_written(source, cursors);
    if let Outcome::Read(t, left) = expression_of(source, cursors) {
        lemma_expression_spaced(source, u);
        lemma_expression_read_back(source, t, left);
    }
}

/// Every `+` and `-` between products of an expression that was read requires whitespace before
/// and after it, at any depth.
pub proof fn law_sum_operators_enforced(source: Seq<char>, cursors: Seq<Cursor>)
    ensures
        match expression_of(source, cursors) {
            Outcome::Read(t, left) => expression_enforced(t),
            Outcome::Stuck(_) => true,
        },
{
    let u = lemma_expression_written(source, cursors);
    lemma_expression_enforced(u);
}

/// An expression that was read is grammatical: in particular a math function opens it, `calc()`
/// has exactly one argument with no trailing comma, and otherwise a comma stands behind each
/// argument but the last.
pub proof fn law_read_is_grammatical(source: Seq<char>, cursors: Seq<Cursor>)
    ensures
        match expression_of(source, cursors) {
            Outcome::Read(t, left) => {
                &&& expression_fits(source, t)
                &&& opens_calc(source, t.name) ==> t.args.len() == 1
                    && t.args[0].trailing_comma is None
                &&& forall|i: int|
                    #![trigger t.args[i]]
                    0 <= i < t.args.len() ==> (t.args[i].trailing_comma is Some <==> i
                        < t.args.len() - 1)
            },
            Outcome::Stuck(_) => true,
        },
{
    let u = lemma_expression_written(source, cursors);
    if let Outcome::Read(t, left) = expression_of(source, cursors) {
        lemma_expression_spaced(source, u);
        assert forall|i: int| #![trigger t.args[i]] 0 <= i < t.args.len() implies (
        t.args[i].trailing_comma is Some <==> i < t.args.len() - 1) by {
            assert(sum_fits(source, t.args[i].sum));
        }
        assert(t.args[0].trailing_comma is Some <==> 0 < t.args.len() - 1);
    }
}

/// An expression is only ever read where one opens, and where none opens nothing is passed over.
pub proof fn law_expression_opens(source: Seq<char>, cursors: Seq<Cursor>)
    ensures
        expression_of(source, cursors) is Read ==> cursors.len() > 0 && opens_math(
            source,
            cursors[0],
        ),
        cursors.len() == 0 || !opens_math(source, cursors[0]) ==> expression_of(source, cursors)
            == Outcome::<ExpressionTree>::Stuck(cursors),
{
}

/// A value is only ever read where its first cursor has one of the kinds that values start with,
/// and elsewhere nothing is passed over.
pub proof fn law_value_starts(source: Seq<char>, cursors: Seq<Cursor>)
    ensures
        cursors.len() > 0 ==> (starts_value(cursors[0].token.kind) <==> {
            ||| cursors[0].token.kind == Kind::Number
            ||| cursors[0].token.kind == Kind::Dimension
            ||| cursors[0].token.kind == Kind::Ident
            ||| cursors[0].token.kind == Kind::Function
            ||| cursors[0].token.kind == Kind::LeftParen
        }),
        value_of(source, cursors) is Read ==> cursors.len() > 0 && starts_value(cursors[0].kind()),
        cursors.len() == 0 || !starts_value(cursors[0].kind()) ==> value_of(source, cursors)
            == Outcome::<ValueTree>::Stuck(cursors),
{
}

/// Parentheses are only ever read from an opening parenthesis, a function only from its name, and
/// elsewhere nothing is passed over.
pub proof fn law_brackets_open(source: Seq<char>, cursors: Seq<Cursor>)
    ensures
        cursors.len() == 0 || cursors[0].token.kind != Kind::LeftParen ==> parens_of(
            source,
            cursors,
        ) == Outcome::<ParensTree>::Stuck(cursors),
        cursors.len() == 0 || cursors[0].token.kind != Kind::Function ==> block_of(cursors)
            == Outcome::<BlockTree>::Stuck(cursors),
        cursors.len() > 0 && cursors[0].token.kind == Kind::LeftParen ==> match (
            value_of(source, cursors),
            parens_of(source, cursors),
        ) {
            (Outcome::Read(v, l), Outcome::Read(p, m)) => v == ValueTree::Parens(p) && l == m,
            (Outcome::Stuck(l), Outcome::Stuck(m)) => l == m,
            _ => false,
        },
{
}

/// Whether or not an expression is read, what is left is the end of what there was.
pub proof fn law_left_is_an_end(source: Seq<char>, cursors: Seq<Cursor>)
    ensures
        leaves_an_end(cursors, expression_of(source, cursors)),
{
    lemma_expression_leaves(source, cursors);
}

/// The cursor at which reading gets stuck is to blame: whatever other cursors follow it, reading
/// gets stuck there, and no grammatical expression starts with the cursors up to it.
pub proof fn law_stuck_for_good(source: Seq<char>, cursors: Seq<Cursor>, other: Seq<Cursor>)
    requires
        expression_of(source, cursors) is Stuck,
        agree(cursors, other, passed(cursors, expression_of(source, cursors)) + 1),
    ensures
        expression_of(source, other) == Outcome::<ExpressionTree>::Stuck(
            other.skip(passed(cursors, expression_of(source, cursors))),
        ),
        !exists|u: ExpressionTree, rest: Seq<Cursor>|
            #![trigger expression_cursors(u) + rest]
            expression_fits(source, u) && other == expression_cursors(u) + rest,
{
    lemma_expression_local(source, cursors, other);
    law_read_iff_grammatical(source, other);
}

/// The span of an expression read from cursors in source order reaches from the first cursor that
/// was passed over to the last.
pub proof fn law_read_span(source: Seq<char>, cursors: Seq<Cursor>)
    requires
        in_source_order(cursors),
    ensures
        match expression_of(source, cursors) {
            Outcome::Read(t, left) => {
                let n = cursors.len() - left.len();
                &&& expression_span(t) == extent(cursors.take(n))
                &&& forall|i: int|
                    0 <= i < n ==> expression_span(t).covers((#[trigger] cursors[i]).span)
            },
            Outcome::Stuck(_) => true,
        },
{
    law_lossless(source, cursors);
    if let Outcome::Read(t, left) = expression_of(source, cursors) {
        let n = cursors.len() - left.len();
        let written = expression_cursors(t);
        let part = cursors.take(n);
        assert forall|i: int| 0 <= i < n implies #[trigger] written[i].span == cursors[i].span by {
            assert(part[i] == cursors[i]);
        }
        assert(in_source_order(written));
        law_expression_span(t);
        assert(part[0] == cursors[0] && part[n - 1] == cursors[n - 1]);
        assert(written[0].span == cursors[0].span);
        assert(written[n - 1].span == cursors[n - 1].span);
    }
}

} // verus!
