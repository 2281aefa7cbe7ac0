//! The rules of calculations, each said by itself: what is put together from which parts is read,
//! and nothing is read that is not put together so.
//!
//! That cursors are read as something *whole* means that nothing of them is left.
use vstd::prelude::*;

use crate::balance::balanced;
use crate::cursor::{text_at, Cursor};
use crate::grammar::{
    args_fit, comma_fits, expression_fits, expression_of, is_product_op, is_sum_op, opens_calc,
    opens_math, parens_of, product_fits, product_of, spaced, sum_fits, sum_of, value_fits, value_of,
    Outcome,
};
use crate::laws::joined::{
    law_args_joined, lemma_one_more_arg, lemma_one_more_product, lemma_one_more_value,
};
use crate::laws::naming::law_name_decides;
use crate::laws::pairing::{law_function_read, law_only_functions_read};
use crate::laws::read_back::{
    lemma_expression_read_back, lemma_product_read_back, lemma_sum_read_back, lemma_value_read_back,
};
use crate::laws::written::{
    lemma_expression_written, lemma_product_written, lemma_sum_written, lemma_value_written,
};
use crate::names::{lemma_word_of, math_functions, parentheses, trimmed};
use crate::spacing::{
    lemma_spaced_args_at, spaced_args, spaced_expression, spaced_product_tail, spaced_sum,
    spaced_sum_tail,
};
use crate::token::{AssociatedWhitespaceRules, Kind, Token};
use crate::tree::{
    args_cursors, expression_cursors, product_cursors, sum_cursors, value_cursors, ArgTree,
    BlockTree, ExpressionTree, ParensTree, ProductTree, SumTree, ValueTree,
};

verus! {

/// A delimiter that is a `*` or a `/`.
pub open spec fn star_or_slash(c: Cursor) -> bool {
    c.token.kind == Kind::Delim && (c.token.delim == Some('*') || c.token.delim == Some('/'))
}

/// A delimiter that is a `+` or a `-`.
pub open spec fn plus_or_minus(c: Cursor) -> bool {
    c.token.kind == Kind::Delim && (c.token.delim == Some('+') || c.token.delim == Some('-'))
}

/// The cursor as it is, but that it requires whitespace on both sides.
pub open spec fn between_whitespace(c: Cursor) -> Cursor {
    Cursor {
        span: c.span,
        token: Token {
            kind: c.token.kind,
            delim: c.token.delim,
            meaning: c.token.meaning,
            whitespace: AssociatedWhitespaceRules {
                enforce_before: true,
                enforce_after: true,
                ban_after: false,
            },
        },
    }
}

/// Whether the cursor is a function with the given word as its name.
pub open spec fn function_named(source: Seq<char>, c: Cursor, word: Seq<char>) -> bool {
    &&& c.token.kind == Kind::Function
    &&& word.len() > 0 ==> word.last() != '('
    &&& exists|n: nat| text_at(source, c.span) == word + #[trigger] parentheses(n)
}

proof fn lemma_named(source: Seq<char>, c: Cursor, word: Seq<char>)
    requires
        function_named(source, c, word),
    ensures
        opens_math(source, c) == math_functions().contains(word),
        opens_calc(source, c) == (word == seq!['c', 'a', 'l', 'c']),
{
    let n = choose|n: nat| text_at(source, c.span) == word + #[trigger] parentheses(n);
    law_name_decides(source, c, word, n);
}

/// The word that a function has as its name.
proof fn lemma_some_name(source: Seq<char>, c: Cursor) -> (word: Seq<char>)
    requires
        c.token.kind == Kind::Function,
    ensures
        function_named(source, c, word),
{
    let text = text_at(source, c.span);
    let n = lemma_word_of(text);
    assert(text == trimmed(text) + parentheses(n));
    trimmed(text)
}

// ---- parts ----
/// A value that is read whole is read whatever follows; and what is read of any cursors is read
/// whole where nothing follows.
pub proof fn law_value_part(source: Seq<char>, cursors: Seq<Cursor>, rest: Seq<Cursor>)
    ensures
        match value_of(source, cursors) {
            Outcome::Read(v, left) => {
                let part = cursors.take(cursors.len() - left.len());
                &&& 0 < cursors.len() - left.len() <= cursors.len()
                &&& cursors == part + left
                &&& value_of(source, part + rest) == Outcome::Read(v, rest)
                &&& value_of(source, part) == Outcome::Read(v, Seq::empty())
            },
            Outcome::Stuck(_) => true,
        },
{
    if let Outcome::Read(v, left) = value_of(source, cursors) {
        let u = lemma_value_written(source, cursors);
        let part = value_cursors(u);
        assert(cursors.take(cursors.len() - left.len()) =~= part);
        lemma_value_read_back(source, u, rest);
        lemma_value_read_back(source, u, Seq::empty());
        assert(part + Seq::empty() =~= part);
    }
}

/// The same of products, unless a `*` or a `/` follows.
pub proof fn law_product_part(source: Seq<char>, cursors: Seq<Cursor>, rest: Seq<Cursor>)
    ensures
        match product_of(source, cursors) {
            Outcome::Read(p, left) => {
                let part = cursors.take(cursors.len() - left.len());
                &&& 0 < cursors.len() - left.len() <= cursors.len()
                &&& cursors == part + left
                &&& left.len() > 0 ==> !star_or_slash(left[0])
                &&& (rest.len() > 0 ==> !star_or_slash(rest[0])) ==> product_of(
                    source,
                    part + rest,
                ) == Outcome::Read(p, rest)
                &&& product_of(source, part) == Outcome::Read(p, Seq::empty())
            },
            Outcome::Stuck(_) => true,
        },
{
    if let Outcome::Read(p, left) = product_of(source, cursors) {
        let u = lemma_product_written(source, cursors);
        let part = product_cursors(u);
        assert(cursors.take(cursors.len() - left.len()) =~= part);
        if rest.len() > 0 ==> !star_or_slash(rest[0]) {
            lemma_product_read_back(source, u, rest);
        }
        lemma_product_read_back(source, u, Seq::empty());
        assert(part + Seq::empty() =~= part);
    }
}

/// The same of sums, unless any of the four operators follows.
pub proof fn law_sum_part(source: Seq<char>, cursors: Seq<Cursor>, rest: Seq<Cursor>)
    ensures
        match sum_of(source, cursors) {
            Outcome::Read(s, left) => {
                let part = cursors.take(cursors.len() - left.len());
                &&& 0 < cursors.len() - left.len() <= cursors.len()
                &&& cursors == part + left
                &&& left.len() > 0 ==> !star_or_slash(left[0]) && !plus_or_minus(left[0])
                &&& (rest.len() > 0 ==> !star_or_slash(rest[0]) && !plus_or_minus(rest[0]))
                    ==> sum_of(source, part + rest) == Outcome::Read(s, rest)
                &&& sum_of(source, part) == Outcome::Read(s, Seq::empty())
            },
            Outcome::Stuck(_) => true,
        },
{
    if let Outcome::Read(s, left) = sum_of(source, cursors) {
        let u = lemma_sum_written(source, cursors);
        let part = sum_cursors(u);
        assert(cursors.take(cursors.len() - left.len()) =~= part);
        if rest.len() > 0 ==> !star_or_slash(rest[0]) && !plus_or_minus(rest[0]) {
            lemma_sum_read_back(source, u, rest);
        }
        lemma_sum_read_back(source, u, Seq::empty());
        assert(part + Seq::empty() =~= part);
    }
}

/// The same of expressions, whatever follows.
pub proof fn law_expression_part(source: Seq<char>, cursors: Seq<Cursor>, rest: Seq<Cursor>)
    ensures
        match expression_of(source, cursors) {
            Outcome::Read(e, left) => {
                let part = cursors.take(cursors.len() - left.len());
                &&& 0 < cursors.len() - left.len() <= cursors.len()
                &&& cursors == part + left
                &&& expression_of(source, part + rest) == Outcome::Read(e, rest)
                &&& expression_of(source, part) == Outcome::Read(e, Seq::empty())
            },
            Outcome::Stuck(_) => true,
        },
{
    if let Outcome::Read(e, left) = expression_of(source, cursors) {
        let u = lemma_expression_written(source, cursors);
        let part = expression_cursors(u);
        assert(cursors.take(cursors.len() - left.len()) =~= part);
        lemma_expression_read_back(source, u, rest);
        lemma_expression_read_back(source, u, Seq::empty());
        assert(part + Seq::empty() =~= part);
    }
}

// ---- values ----
/// A number, a dimension and an identifier are values, whatever follows.
pub proof fn law_leaf_read(source: Seq<char>, c: Cursor, rest: Seq<Cursor>)
    ensures
        c.token.kind == Kind::Number ==> value_of(source, seq![c] + rest) == Outcome::Read(
            ValueTree::Number(c),
            rest,
        ),
        c.token.kind == Kind::Dimension ==> value_of(source, seq![c] + rest) == Outcome::Read(
            ValueTree::Dimension(c),
            rest,
        ),
        c.token.kind == Kind::Ident ==> value_of(source, seq![c] + rest) == Outcome::Read(
            ValueTree::Ident(c),
            rest,
        ),
{
    assert((seq![c] + rest).drop_first() =~= rest);
}

/// An expression is a value.
pub proof fn law_nested_read(source: Seq<char>, cursors: Seq<Cursor>)
    ensures
        match expression_of(source, cursors) {
            Outcome::Read(e, left) => value_of(source, cursors) == Outcome::Read(
                ValueTree::Calc(e),
                left,
            ),
            Outcome::Stuck(_) => true,
        },
{
}

/// A function that has none of the six names is a value, whatever balanced tokens it holds.
pub proof fn law_other_function_read(
    source: Seq<char>,
    name: Cursor,
    word: Seq<char>,
    params: Seq<Cursor>,
    close: Cursor,
    rest: Seq<Cursor>,
)
    requires
        function_named(source, name, word),
        !math_functions().contains(word),
        balanced(params),
        close.token.kind == Kind::RightParen,
    ensures
        value_of(source, seq![name] + params + seq![close] + rest) == Outcome::Read(
            ValueTree::Function(BlockTree { name, params, close }),
            rest,
        ),
{
    lemma_named(source, name, word);
    law_function_read(name, params, close, rest);
    assert((seq![name] + params + seq![close] + rest)[0] == name);
}

/// A sum between parentheses is a value.
pub proof fn law_parens_read(
    source: Seq<char>,
    open: Cursor,
    inner: Seq<Cursor>,
    sum: SumTree,
    close: Cursor,
    rest: Seq<Cursor>,
)
    requires
        open.token.kind == Kind::LeftParen,
        sum_of(source, inner) == Outcome::Read(sum, Seq::empty()),
        close.token.kind == Kind::RightParen,
    ensures
        parens_of(source, seq![open] + inner + seq![close] + rest) == Outcome::Read(
            ParensTree { open, sum: Box::new(sum), close },
            rest,
        ),
        value_of(source, seq![open] + inner + seq![close] + rest) == Outcome::Read(
            ValueTree::Parens(ParensTree { open, sum: Box::new(sum), close }),
            rest,
        ),
{
    let cursors = seq![open] + inner + seq![close] + rest;
    let end = seq![close] + rest;
    law_sum_part(source, inner, end);
    assert(inner.take(inner.len() as int) =~= inner);
    assert(cursors.drop_first() =~= inner + end);
    assert(end.drop_first() =~= rest);
    assert(cursors[0] == open);
}

/// Nothing else is a value: what is read is one cursor of the right kind, or an expression, or a
/// function with none of the six names and balanced tokens in it, or parentheses around cursors
/// that are read whole as a sum.
pub proof fn law_only_values_read(source: Seq<char>, cursors: Seq<Cursor>) -> (r: (
    Seq<char>,
    Seq<Cursor>,
))
    ensures
        match value_of(source, cursors) {
            Outcome::Read(v, left) => match v {
                ValueTree::Number(c) => c.token.kind == Kind::Number && cursors == seq![c] + left,
                ValueTree::Dimension(c) => c.token.kind == Kind::Dimension && cursors == seq![c]
                    + left,
                ValueTree::Ident(c) => c.token.kind == Kind::Ident && cursors == seq![c] + left,
                ValueTree::Calc(e) => expression_of(source, cursors) == Outcome::Read(e, left),
                ValueTree::Function(b) => {
                    &&& function_named(source, b.name, r.0)
                    &&& !math_functions().contains(r.0)
                    &&& balanced(b.params)
                    &&& b.close.token.kind == Kind::RightParen
                    &&& cursors == seq![b.name] + b.params + seq![b.close] + left
                },
                ValueTree::Parens(p) => {
                    &&& p.open.token.kind == Kind::LeftParen
                    &&& sum_of(source, r.1) == Outcome::Read(*p.sum, Seq::empty())
                    &&& p.close.token.kind == Kind::RightParen
                    &&& cursors == seq![p.open] + r.1 + seq![p.close] + left
                },
            },
            Outcome::Stuck(_) => true,
        },
{
    let mut word = Seq::<char>::empty();
    let mut inner = Seq::<Cursor>::empty();
    if let Outcome::Read(v, left) = value_of(source, cursors) {
        match v {
            ValueTree::Function(b) => {
                law_only_functions_read(cursors);
                word = lemma_some_name(source, b.name);
                lemma_named(source, b.name, word);
            },
            ValueTree::Parens(p) => {
                let inside = cursors.drop_first();
                let behind = sum_of(source, inside).left();
                law_sum_part(source, inside, Seq::empty());
                inner = inside.take(inside.len() - behind.len());
                assert(inside == inner + behind);
                assert(behind =~= seq![p.close] + left);
                assert(cursors =~= seq![p.open] + inside);
                assert(cursors =~= seq![p.open] + inner + seq![p.close] + left);
            },
            ValueTree::Calc(e) => {},
            _ => {
                assert(cursors =~= seq![cursors[0]] + left);
            },
        }
    }
    (word, inner)
}

// ---- products ----
/// A value is a product, unless a `*` or a `/` follows.
pub proof fn law_product_of_one(
    source: Seq<char>,
    a: Seq<Cursor>,
    value: ValueTree,
    rest: Seq<Cursor>,
)
    requires
        value_of(source, a) == Outcome::Read(value, Seq::empty()),
        rest.len() > 0 ==> !star_or_slash(rest[0]),
    ensures
        product_of(source, a + rest) == Outcome::Read(
            ProductTree { head: value, tail: Seq::empty() },
            rest,
        ),
{
    law_value_part(source, a, rest);
    assert(a.take(a.len() as int) =~= a);
}

/// A product goes on with a `*` or a `/` and a value, unless another of these follows. The
/// operator stays as it is.
#[verifier::spinoff_prover]
#[verifier::rlimit(40)]
pub proof fn law_product_goes_on(
    source: Seq<char>,
    a: Seq<Cursor>,
    product: ProductTree,
    op: Cursor,
    b: Seq<Cursor>,
    value: ValueTree,
    rest: Seq<Cursor>,
)
    requires
        product_of(source, a) == Outcome::Read(product, Seq::empty()),
        star_or_slash(op),
        value_of(source, b) == Outcome::Read(value, Seq::empty()),
        rest.len() > 0 ==> !star_or_slash(rest[0]),
    ensures
        product_of(source, a + seq![op] + b + rest) == Outcome::Read(
            ProductTree { head: product.head, tail: product.tail.push((op, value)) },
            rest,
        ),
{
    let u = lemma_product_written(source, a);
    let w = lemma_value_written(source, b);
    assert(product_cursors(u) =~= a);
    assert(value_cursors(w) =~= b);
    let longer = ProductTree { head: u.head, tail: u.tail.push((op, w)) };
    lemma_one_more_value(u.tail, op, w);
    assert(product_cursors(longer) =~= a + seq![op] + b);
    assert forall|i: int| 0 <= i < longer.tail.len() implies is_product_op(
        (#[trigger] longer.tail[i]).0,
    ) && value_fits(source, longer.tail[i].1) by {
        if i < u.tail.len() {
            assert(longer.tail[i] == u.tail[i]);
        }
    }
    assert(product_fits(source, longer));
    lemma_product_read_back(source, longer, rest);
}

/// Nothing else is a product: what is read is a value alone, or a product, a `*` or a `/`, and a
/// value, and no such operator follows.
#[verifier::spinoff_prover]
#[verifier::rlimit(40)]
pub proof fn law_only_products_read(source: Seq<char>, cursors: Seq<Cursor>) -> (r: (
    Seq<Cursor>,
    Seq<Cursor>,
))
    ensures
        match product_of(source, cursors) {
            Outcome::Read(p, left) => {
                &&& left.len() > 0 ==> !star_or_slash(left[0])
                &&& p.tail.len() == 0 ==> value_of(source, cursors) == Outcome::Read(p.head, left)
                &&& p.tail.len() > 0 ==> {
                    &&& star_or_slash(p.tail.last().0)
                    &&& cursors == r.0 + seq![p.tail.last().0] + r.1 + left
                    &&& product_of(source, r.0) == Outcome::Read(
                        ProductTree { head: p.head, tail: p.tail.drop_last() },
                        Seq::empty(),
                    )
                    &&& value_of(source, r.1) == Outcome::Read(p.tail.last().1, Seq::empty())
                }
            },
            Outcome::Stuck(_) => true,
        },
{
    let mut front = Seq::<Cursor>::empty();
    let mut back = Seq::<Cursor>::empty();
    if let Outcome::Read(p, left) = product_of(source, cursors) {
        let u = lemma_product_written(source, cursors);
        if u.tail.len() == 0 {
            assert(spaced_product_tail(u.tail) =~= Seq::empty());
            lemma_value_read_back(source, u.head, left);
            assert(product_cursors(u) =~= value_cursors(u.head));
        } else {
            let (op, w) = u.tail.last();
            let shorter = ProductTree { head: u.head, tail: u.tail.drop_last() };
            assert(u.tail =~= shorter.tail.push((op, w)));
            lemma_one_more_value(shorter.tail, op, w);
            front = product_cursors(shorter);
            back = value_cursors(w);
            assert(is_product_op(u.tail[u.tail.len() - 1].0));
            assert(value_fits(source, w));
            assert(product_fits(source, shorter));
            lemma_product_read_back(source, shorter, Seq::empty());
            lemma_value_read_back(source, w, Seq::empty());
            assert(front + Seq::empty() =~= front);
            assert(back + Seq::empty() =~= back);
            assert(p.tail.drop_last() =~= spaced_product_tail(shorter.tail));
            assert(cursors =~= front + seq![op] + back + left);
        }
    }
    (front, back)
}

// ---- sums ----
/// A product is a sum, unless an operator follows.
pub proof fn law_sum_of_one(
    source: Seq<char>,
    a: Seq<Cursor>,
    product: ProductTree,
    rest: Seq<Cursor>,
)
    requires
        product_of(source, a) == Outcome::Read(product, Seq::empty()),
        rest.len() > 0 ==> !star_or_slash(rest[0]) && !plus_or_minus(rest[0]),
    ensures
        sum_of(source, a + rest) == Outcome::Read(
            SumTree { head: product, tail: Seq::empty() },
            rest,
        ),
{
    law_product_part(source, a, rest);
    assert(a.take(a.len() as int) =~= a);
}

/// A sum goes on with a `+` or a `-` and a product, unless another operator follows. The operator
/// comes to require whitespace on both sides.
#[verifier::spinoff_prover]
#[verifier::rlimit(40)]
pub proof fn law_sum_goes_on(
    source: Seq<char>,
    a: Seq<Cursor>,
    sum: SumTree,
    op: Cursor,
    b: Seq<Cursor>,
    product: ProductTree,
    rest: Seq<Cursor>,
)
    requires
        sum_of(source, a) == Outcome::Read(sum, Seq::empty()),
        plus_or_minus(op),
        product_of(source, b) == Outcome::Read(product, Seq::empty()),
        rest.len() > 0 ==> !star_or_slash(rest[0]) && !plus_or_minus(rest[0]),
    ensures
        sum_of(source, a + seq![op] + b + rest) == Outcome::Read(
            SumTree { head: sum.head, tail: sum.tail.push((between_whitespace(op), product)) },
            rest,
        ),
{
    let u = lemma_sum_written(source, a);
    let w = lemma_product_written(source, b);
    assert(sum_cursors(u) =~= a);
    assert(product_cursors(w) =~= b);
    let longer = SumTree { head: u.head, tail: u.tail.push((op, w)) };
    lemma_one_more_product(u.tail, op, w);
    assert(sum_cursors(longer) =~= a + seq![op] + b);
    assert forall|i: int| 0 <= i < longer.tail.len() implies is_sum_op(
        (#[trigger] longer.tail[i]).0,
    ) && product_fits(source, longer.tail[i].1) by {
        if i < u.tail.len() {
            assert(longer.tail[i] == u.tail[i]);
        }
    }
    assert(sum_fits(source, longer));
    lemma_sum_read_back(source, longer, rest);
    assert(spaced(op) == between_whitespace(op));
}

/// Nothing else is a sum: what is read is a product alone, or a sum, a `+` or a `-`, and a
/// product, and no operator follows. The operator has come to require whitespace on both sides.
#[verifier::spinoff_prover]
#[verifier::rlimit(40)]
pub proof fn law_only_sums_read(source: Seq<char>, cursors: Seq<Cursor>) -> (r: (
    Seq<Cursor>,
    Cursor,
    Seq<Cursor>,
))
    ensures
        match sum_of(source, cursors) {
            Outcome::Read(s, left) => {
                &&& left.len() > 0 ==> !star_or_slash(left[0]) && !plus_or_minus(left[0])
                &&& s.tail.len() == 0 ==> product_of(source, cursors) == Outcome::Read(s.head, left)
                &&& s.tail.len() > 0 ==> {
                    &&& plus_or_minus(r.1)
                    &&& s.tail.last().0 == between_whitespace(r.1)
                    &&& cursors == r.0 + seq![r.1] + r.2 + left
                    &&& sum_of(source, r.0) == Outcome::Read(
                        SumTree { head: s.head, tail: s.tail.drop_last() },
                        Seq::empty(),
                    )
                    &&& product_of(source, r.2) == Outcome::Read(s.tail.last().1, Seq::empty())
                }
            },
            Outcome::Stuck(_) => true,
        },
{
    let mut front = Seq::<Cursor>::empty();
    let mut between: Cursor = arbitrary();
    let mut back = Seq::<Cursor>::empty();
    if let Outcome::Read(s, left) = sum_of(source, cursors) {
        let u = lemma_sum_written(source, cursors);
        if u.tail.len() == 0 {
            assert(spaced_sum_tail(u.tail) =~= Seq::empty());
            lemma_product_read_back(source, u.head, left);
            assert(sum_cursors(u) =~= product_cursors(u.head));
        } else {
            let (op, w) = u.tail.last();
            let shorter = SumTree { head: u.head, tail: u.tail.drop_last() };
            assert(u.tail =~= shorter.tail.push((op, w)));
            lemma_one_more_product(shorter.tail, op, w);
            front = sum_cursors(shorter);
            between = op;
            back = product_cursors(w);
            assert(is_sum_op(u.tail[u.tail.len() - 1].0));
            assert(product_fits(source, w));
            assert(sum_fits(source, shorter));
            lemma_sum_read_back(source, shorter, Seq::empty());
            lemma_product_read_back(source, w, Seq::empty());
            assert(front + Seq::empty() =~= front);
            assert(back + Seq::empty() =~= back);
            assert(s.tail.drop_last() =~= spaced_sum_tail(shorter.tail));
            assert(cursors =~= front + seq![op] + back + left);
            assert(spaced(op) == between_whitespace(op));
        }
    }
    (front, between, back)
}

// ---- expressions ----
/// One of the six names, a sum and a closing parenthesis are an expression.
pub proof fn law_expression_of_one(
    source: Seq<char>,
    name: Cursor,
    word: Seq<char>,
    a: Seq<Cursor>,
    sum: SumTree,
    close: Cursor,
    rest: Seq<Cursor>,
)
    requires
        function_named(source, name, word),
        math_functions().contains(word),
        sum_of(source, a) == Outcome::Read(sum, Seq::empty()),
        close.token.kind == Kind::RightParen,
    ensures
        expression_of(source, seq![name] + a + seq![close] + rest) == Outcome::Read(
            ExpressionTree { name, args: seq![ArgTree { sum, trailing_comma: None }], close },
            rest,
        ),
{
    lemma_named(source, name, word);
    let cursors = seq![name] + a + seq![close] + rest;
    let end = seq![close] + rest;
    law_sum_part(source, a, end);
    assert(a.take(a.len() as int) =~= a);
    assert(cursors.drop_first() =~= a + end);
    assert(cursors[0] == name);
    assert(end.drop_first() =~= rest);
    assert(Seq::<ArgTree>::empty().push(ArgTree { sum, trailing_comma: None }) =~= seq![
        ArgTree { sum, trailing_comma: None },
    ]);
}

/// The arguments with a comma behind the last, and one more.
pub open spec fn one_more(args: Seq<ArgTree>, comma: Cursor, sum: SumTree) -> Seq<ArgTree> {
    args.drop_last().push(ArgTree { sum: args.last().sum, trailing_comma: Some(comma) }).push(
        ArgTree { sum, trailing_comma: None },
    )
}

/// One more argument behind grammatical ones.
#[verifier::spinoff_prover]
#[verifier::rlimit(40)]
proof fn lemma_args_longer(source: Seq<char>, args: Seq<ArgTree>, comma: Cursor, sum: SumTree)
    requires
        args_fit(source, false, args),
        comma.token.kind == Kind::Comma,
        sum_fits(source, sum),
    ensures
        args_fit(source, false, one_more(args, comma, sum)),
        args_cursors(one_more(args, comma, sum)) == args_cursors(args) + seq![comma] + sum_cursors(
            sum,
        ),
        spaced_args(one_more(args, comma, sum)) == one_more(
            spaced_args(args),
            comma,
            spaced_sum(sum),
        ),
{
    let n = args.len() as int;
    assert(sum_fits(source, args[n - 1].sum));
    let last = args.last();
    let before = args.drop_last();
    let first = ArgTree { sum: last.sum, trailing_comma: Some(comma) };
    let second = ArgTree { sum, trailing_comma: None };
    let longer = one_more(args, comma, sum);
    assert(args =~= before.push(last));
    lemma_one_more_arg(before, last);
    lemma_one_more_arg(before, first);
    lemma_one_more_arg(before.push(first), second);
    assert(spaced_args(args).drop_last() =~= spaced_args(before));
    assert forall|i: int| 0 <= i < longer.len() implies sum_fits(source, #[trigger] longer[i].sum)
        && comma_fits(longer[i].trailing_comma, i == longer.len() - 1) by {
        if i < n - 1 {
            assert(longer[i] == args[i]);
            assert(sum_fits(source, args[i].sum));
        }
    }
}

/// Grammatical arguments without the last of them, and without the comma before it.
proof fn lemma_args_shorter(source: Seq<char>, args: Seq<ArgTree>) -> (shorter: Seq<ArgTree>)
    requires
        args_fit(source, false, args),
        args.len() > 1,
    ensures
        args_fit(source, false, shorter),
        args[args.len() - 2].trailing_comma is Some,
        args[args.len() - 2].trailing_comma->0.token.kind == Kind::Comma,
        args == one_more(shorter, args[args.len() - 2].trailing_comma->0, args.last().sum),
{
    let n = args.len() as int;
    assert(sum_fits(source, args[n - 1].sum));
    assert(sum_fits(source, args[n - 2].sum));
    let bare = ArgTree { sum: args[n - 2].sum, trailing_comma: None };
    let shorter = args.take(n - 2).push(bare);
    assert forall|i: int| 0 <= i < shorter.len() implies sum_fits(
        source,
        #[trigger] shorter[i].sum,
    ) && comma_fits(shorter[i].trailing_comma, i == shorter.len() - 1) by {
        assert(sum_fits(source, args[i].sum));
    }
    assert(shorter.drop_last() =~= args.take(n - 2));
    assert(args =~= one_more(shorter, args[n - 2].trailing_comma->0, args.last().sum));
    shorter
}

/// What stands between the name and the closing parenthesis.
proof fn lemma_inside(t: ExpressionTree, name: Cursor, a: Seq<Cursor>, close: Cursor)
    requires
        expression_cursors(t) == seq![name] + a + seq![close],
    ensures
        t.name == name,
        args_cursors(t.args) == a,
        t.close == close,
{
    let all = expression_cursors(t);
    assert(all[0] == t.name);
    assert(all.last() == t.close);
    assert(all.subrange(1, all.len() - 1) =~= args_cursors(t.args));
    assert(all.subrange(1, all.len() - 1) =~= a);
}

/// A grammatical expression with a comma and one more sum is read.
#[verifier::spinoff_prover]
#[verifier::rlimit(40)]
proof fn lemma_goes_on(
    source: Seq<char>,
    u: ExpressionTree,
    comma: Cursor,
    w: SumTree,
    rest: Seq<Cursor>,
)
    requires
        expression_fits(source, u),
        !opens_calc(source, u.name),
        comma.token.kind == Kind::Comma,
        sum_fits(source, w),
    ensures
        expression_of(
            source,
            seq![u.name] + args_cursors(u.args) + seq![comma] + sum_cursors(w) + seq![u.close]
                + rest,
        ) == Outcome::Read(
            ExpressionTree {
                name: u.name,
                args: one_more(spaced_args(u.args), comma, spaced_sum(w)),
                close: u.close,
            },
            rest,
        ),
{
    lemma_args_longer(source, u.args, comma, w);
    let tree = ExpressionTree { name: u.name, args: one_more(u.args, comma, w), close: u.close };
    lemma_expression_read_back(source, tree, rest);
    assert(expression_cursors(tree) =~= seq![u.name] + args_cursors(u.args) + seq![comma]
        + sum_cursors(w) + seq![u.close]);
}

/// An expression of any of the six names but `calc` can go on with a comma and a sum.
#[verifier::spinoff_prover]
#[verifier::rlimit(40)]
pub proof fn law_expression_goes_on(
    source: Seq<char>,
    name: Cursor,
    word: Seq<char>,
    a: Seq<Cursor>,
    expression: ExpressionTree,
    comma: Cursor,
    b: Seq<Cursor>,
    sum: SumTree,
    close: Cursor,
    rest: Seq<Cursor>,
)
    requires
        function_named(source, name, word),
        math_functions().contains(word),
        word != seq!['c', 'a', 'l', 'c'],
        expression_of(source, seq![name] + a + seq![close]) == Outcome::Read(
            expression,
            Seq::empty(),
        ),
        comma.token.kind == Kind::Comma,
        sum_of(source, b) == Outcome::Read(sum, Seq::empty()),
        close.token.kind == Kind::RightParen,
    ensures
        expression_of(source, seq![name] + a + seq![comma] + b + seq![close] + rest)
            == Outcome::Read(
            ExpressionTree { name, args: one_more(expression.args, comma, sum), close },
            rest,
        ),
{
    lemma_named(source, name, word);
    let short = seq![name] + a + seq![close];
    let u = lemma_expression_written(source, short);
    let w = lemma_sum_written(source, b);
    assert(expression_cursors(u) =~= short);
    assert(sum_cursors(w) =~= b);
    lemma_inside(u, name, a, close);
    lemma_goes_on(source, u, comma, w, rest);
}

/// A grammatical expression with several arguments is one with fewer, a comma and a sum.
#[verifier::spinoff_prover]
#[verifier::rlimit(40)]
proof fn lemma_several(source: Seq<char>, u: ExpressionTree) -> (r: (Seq<Cursor>, ExpressionTree))
    requires
        expression_fits(source, u),
        u.args.len() > 1,
    ensures
        ({
            let e = spaced_expression(u);
            let comma = e.args[e.args.len() - 2].trailing_comma;
            &&& e.args.len() == u.args.len()
            &&& !opens_calc(source, u.name)
            &&& comma is Some
            &&& comma->0.token.kind == Kind::Comma
            &&& expression_cursors(u) == seq![u.name] + r.0 + seq![comma->0] + sum_cursors(
                u.args.last().sum,
            ) + seq![u.close]
            &&& expression_of(source, seq![u.name] + r.0 + seq![u.close]) == Outcome::Read(
                r.1,
                Seq::empty(),
            )
            &&& r.1.name == u.name && r.1.close == u.close
            &&& r.1.args.len() > 0
            &&& e.args == one_more(r.1.args, comma->0, spaced_sum(u.args.last().sum))
        }),
{
    let n = u.args.len() as int;
    lemma_spaced_args_at(u.args);
    assert(spaced_args(u.args)[n - 2].trailing_comma == u.args[n - 2].trailing_comma);
    assert(sum_fits(source, u.args[n - 1].sum));
    let shorter = lemma_args_shorter(source, u.args);
    let comma = u.args[n - 2].trailing_comma->0;
    lemma_args_longer(source, shorter, comma, u.args.last().sum);
    lemma_spaced_args_at(shorter);
    let front = args_cursors(shorter);
    let tree = ExpressionTree { name: u.name, args: shorter, close: u.close };
    lemma_expression_read_back(source, tree, Seq::empty());
    assert(expression_cursors(tree) + Seq::empty() =~= seq![u.name] + front + seq![u.close]);
    assert(expression_cursors(u) =~= seq![u.name] + front + seq![comma] + sum_cursors(
        u.args.last().sum,
    ) + seq![u.close]);
    (front, spaced_expression(tree))
}

/// Nothing else is an expression: what is read is one of the six names, a sum and a closing
/// parenthesis; or, unless the name is `calc`, an expression with a comma and one more sum.
#[verifier::spinoff_prover]
#[verifier::rlimit(40)]
pub proof fn law_only_expressions_read(source: Seq<char>, cursors: Seq<Cursor>) -> (r: (
    Seq<char>,
    Seq<Cursor>,
    Seq<Cursor>,
))
    ensures
        match expression_of(source, cursors) {
            Outcome::Read(e, left) => {
                &&& function_named(source, e.name, r.0)
                &&& math_functions().contains(r.0)
                &&& e.args.len() > 0
                &&& e.args.last().trailing_comma is None
                &&& e.close.token.kind == Kind::RightParen
                &&& sum_of(source, r.2) == Outcome::Read(e.args.last().sum, Seq::empty())
                &&& e.args.len() == 1 ==> cursors == seq![e.name] + r.2 + seq![e.close] + left
                &&& e.args.len() > 1 ==> {
                    let comma = e.args[e.args.len() - 2].trailing_comma;
                    &&& r.0 != seq!['c', 'a', 'l', 'c']
                    &&& comma is Some
                    &&& comma->0.token.kind == Kind::Comma
                    &&& cursors == seq![e.name] + r.1 + seq![comma->0] + r.2 + seq![e.close] + left
                    &&& match expression_of(source, seq![e.name] + r.1 + seq![e.close]) {
                        Outcome::Read(short, end) => {
                            &&& end.len() == 0
                            &&& short.name == e.name && short.close == e.close
                            &&& short.args.len() > 0
                            &&& e.args == one_more(short.args, comma->0, e.args.last().sum)
                        },
                        Outcome::Stuck(_) => false,
                    }
                }
            },
            Outcome::Stuck(_) => true,
        },
{
    let mut word = Seq::<char>::empty();
    let mut front = Seq::<Cursor>::empty();
    let mut back = Seq::<Cursor>::empty();
    if let Outcome::Read(e, left) = expression_of(source, cursors) {
        word = lemma_some_name(source, e.name);
        lemma_named(source, e.name, word);
        let u = lemma_expression_written(source, cursors);
        let n = u.args.len() as int;
        lemma_spaced_args_at(u.args);
        assert(spaced_args(u.args)[n - 1] == e.args[n - 1]);
        assert(sum_fits(source, u.args[n - 1].sum));
        let last = u.args.last();
        back = sum_cursors(last.sum);
        lemma_sum_read_back(source, last.sum, Seq::empty());
        assert(back + Seq::empty() =~= back);
        if n == 1 {
            law_args_joined(Seq::empty(), Seq::empty(), last);
            assert(u.args =~= seq![last]);
        } else {
            front = lemma_several(source, u).0;
        }
    }
    (word, front, back)
}

} // verus!
