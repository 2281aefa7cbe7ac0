//! Calculations: `calc()` and the other math functions.
use vstd::prelude::*;

use crate::arena::{CalcArgs, CalcProductTail, CalcSumTail};
use crate::block::FunctionBlock;
use crate::cursor::{
    readable, text_at, Comma, Cursor, CursorSink, Delim, Dimension, Function, Ident, LeftParen,
    Number, RightParen, Span,
};
use crate::grammar::{
    args_of, expression_of, is_product_op, is_sum_op, opens_calc, opens_math, parens_of, product_of,
    product_tail_of, spaced, sum_of, sum_tail_of, value_of, Outcome,
};
use crate::laws::naming::law_name_decides;
use crate::names::{is_calc, is_math_function, math_functions, parentheses};
use crate::parser::{front, Diagnostic, Parser};
use crate::token::{AssociatedWhitespaceRules, Kind, KindSet};
use crate::tree::{
    args_cursors, expression_cursors, expression_span, parens_cursors, parens_span, product_cursors,
    product_span, product_tail_cursors, same_expression, same_parens, same_product, same_sum,
    same_value, sum_cursors, sum_span, sum_tail_cursors, value_cursors, value_span, ArgTree,
    ExpressionTree, ParensTree, ProductTree, SumTree, ValueTree,
};

verus! {

/// A `calc()`/`min()`/`max()`/`clamp()`/`mod()`/`rem()` expression.
///
/// Its arguments are read as [CalcSum]s, so that the `+` and `-` operators, which have to stand
/// between whitespace, can be told apart and marked. `*` and `/` need no whitespace and are left
/// as they are.
#[derive(Debug, PartialEq, Eq, PartialOrd, Ord, Hash)]
pub struct CalcExpression<'a> {
    pub name: Function,
    pub args: CalcArgs<'a>,
    pub close: RightParen,
}

/// A single argument of a math function, with the comma that sets it apart from the next.
///
/// `calc()` always has exactly one, with no trailing comma; the other math functions can have
/// several, separated by commas.
#[derive(Debug, PartialEq, Eq, PartialOrd, Ord, Hash)]
pub struct CalcArg<'a> {
    pub sum: CalcSum<'a>,
    pub trailing_comma: Option<Comma>,
}

/// `<calc-sum> = <calc-product> [ ['+' | '-'] <calc-product> ]*`
#[derive(Debug, PartialEq, Eq, PartialOrd, Ord, Hash)]
pub struct CalcSum<'a> {
    pub head: CalcProduct<'a>,
    pub tail: CalcSumTail<'a>,
}

/// A `+` or `-` operator inside a `<calc-sum>`.
///
/// Once read, it requires whitespace before and after it, whether or not the source had any.
#[derive(Debug, Clone, Copy, PartialEq, Eq, PartialOrd, Ord, Hash)]
pub struct CalcSumOp(pub Delim);

/// `<calc-product> = <calc-value> [ ['*' | '/'] <calc-value> ]*`
#[derive(Debug, PartialEq, Eq, PartialOrd, Ord, Hash)]
pub struct CalcProduct<'a> {
    pub head: CalcValue<'a>,
    pub tail: CalcProductTail<'a>,
}

/// A `*` or `/` operator inside a `<calc-product>`. It keeps the whitespace rules it came with.
#[derive(Debug, Clone, Copy, PartialEq, Eq, PartialOrd, Ord, Hash)]
pub struct CalcProductOp(pub Delim);

/// A leaf value inside a `<calc-product>`.
#[derive(Debug, PartialEq, Eq, PartialOrd, Ord, Hash)]
pub enum CalcValue<'a> {
    Number(Number),
    Dimension(Dimension),
    Ident(Ident),
    /// A nested `calc()`, `min()`, `max()` and so on.
    Calc(Box<CalcExpression<'a>>),
    /// Any other function, such as `var(--x)`, kept token by token.
    Function(FunctionBlock),
    /// A sub-expression in parentheses: `(<calc-sum>)`.
    Parens(CalcParens<'a>),
}

/// A sub-expression in parentheses.
#[derive(Debug, PartialEq, Eq, PartialOrd, Ord, Hash)]
pub struct CalcParens<'a> {
    pub open: LeftParen,
    pub sum: Box<CalcSum<'a>>,
    pub close: RightParen,
}

// ---- the tree that each node stands for ----
/// The cursor of a comma.
pub open spec fn comma_tree(comma: Option<Comma>) -> Option<Cursor> {
    match comma {
        Some(c) => Some(c.0),
        None => None,
    }
}

/// The tree that an expression stands for.
pub open spec fn expression_tree(e: CalcExpression) -> ExpressionTree {
    ExpressionTree { name: e.name.0, args: e.args@, close: e.close.0 }
}

/// The tree that an argument stands for.
pub open spec fn arg_tree(a: CalcArg) -> ArgTree {
    ArgTree { sum: sum_tree(a.sum), trailing_comma: comma_tree(a.trailing_comma) }
}

/// The tree that a sum stands for.
pub open spec fn sum_tree(s: CalcSum) -> SumTree
    decreases s,
{
    SumTree { head: product_tree(s.head), tail: s.tail@ }
}

/// The tree that a product stands for.
pub open spec fn product_tree(p: CalcProduct) -> ProductTree
    decreases p,
{
    ProductTree { head: value_tree(p.head), tail: p.tail@ }
}

/// The tree that a value stands for.
pub open spec fn value_tree(v: CalcValue) -> ValueTree
    decreases v,
{
    match v {
        CalcValue::Number(n) => ValueTree::Number(n.0),
        CalcValue::Dimension(d) => ValueTree::Dimension(d.0),
        CalcValue::Ident(i) => ValueTree::Ident(i.0),
        CalcValue::Calc(e) => ValueTree::Calc(expression_tree(*e)),
        CalcValue::Function(b) => ValueTree::Function(b@),
        CalcValue::Parens(p) => ValueTree::Parens(parens_tree(p)),
    }
}

/// The tree that parentheses stand for.
pub open spec fn parens_tree(p: CalcParens) -> ParensTree
    decreases p,
{
    ParensTree { open: p.open.0, sum: Box::new(sum_tree(*p.sum)), close: p.close.0 }
}

impl<'a> View for CalcExpression<'a> {
    type V = ExpressionTree;

    open spec fn view(&self) -> ExpressionTree {
        expression_tree(*self)
    }
}

impl<'a> View for CalcArg<'a> {
    type V = ArgTree;

    open spec fn view(&self) -> ArgTree {
        arg_tree(*self)
    }
}

impl<'a> View for CalcSum<'a> {
    type V = SumTree;

    open spec fn view(&self) -> SumTree {
        sum_tree(*self)
    }
}

impl View for CalcSumOp {
    type V = Cursor;

    open spec fn view(&self) -> Cursor {
        self.0.0
    }
}

impl<'a> View for CalcProduct<'a> {
    type V = ProductTree;

    open spec fn view(&self) -> ProductTree {
        product_tree(*self)
    }
}

impl View for CalcProductOp {
    type V = Cursor;

    open spec fn view(&self) -> Cursor {
        self.0.0
    }
}

impl<'a> View for CalcValue<'a> {
    type V = ValueTree;

    open spec fn view(&self) -> ValueTree {
        value_tree(*self)
    }
}

impl<'a> View for CalcParens<'a> {
    type V = ParensTree;

    open spec fn view(&self) -> ParensTree {
        parens_tree(*self)
    }
}

// ---- copying ----
impl<'a> Clone for CalcExpression<'a> {
    fn clone(&self) -> (r: Self)
        ensures
            r@ == self@,
        decreases self@,
    {
        assert(decreases_to!(self@ => self@.args));
        CalcExpression { name: self.name, args: self.args.clone(), close: self.close }
    }
}

impl<'a> Clone for CalcArg<'a> {
    fn clone(&self) -> (r: Self)
        ensures
            r@ == self@,
        decreases self@,
    {
        assert(decreases_to!(self@ => self@.sum));
        CalcArg { sum: self.sum.clone(), trailing_comma: self.trailing_comma }
    }
}

impl<'a> Clone for CalcSum<'a> {
    fn clone(&self) -> (r: Self)
        ensures
            r@ == self@,
        decreases self@,
    {
        assert(decreases_to!(self@ => self@.head));
        assert(decreases_to!(self@ => self@.tail));
        CalcSum { head: self.head.clone(), tail: self.tail.clone() }
    }
}

impl<'a> Clone for CalcProduct<'a> {
    fn clone(&self) -> (r: Self)
        ensures
            r@ == self@,
        decreases self@,
    {
        assert(decreases_to!(self@ => self@.head));
        assert(decreases_to!(self@ => self@.tail));
        CalcProduct { head: self.head.clone(), tail: self.tail.clone() }
    }
}

impl<'a> Clone for CalcValue<'a> {
    fn clone(&self) -> (r: Self)
        ensures
            r@ == self@,
        decreases self@,
    {
        match self {
            CalcValue::Number(t) => CalcValue::Number(*t),
            CalcValue::Dimension(t) => CalcValue::Dimension(*t),
            CalcValue::Ident(t) => CalcValue::Ident(*t),
            CalcValue::Calc(t) => {
                assert(decreases_to!(self@ => self@->Calc_0));
                let inner: CalcExpression<'a> = (&**t).clone();
                CalcValue::Calc(Box::new(inner))
            },
            CalcValue::Function(t) => CalcValue::Function(t.clone()),
            CalcValue::Parens(t) => {
                assert(decreases_to!(self@ => self@->Parens_0));
                CalcValue::Parens(t.clone())
            },
        }
    }
}

impl<'a> Clone for CalcParens<'a> {
    fn clone(&self) -> (r: Self)
        ensures
            r@ == self@,
        decreases self@,
    {
        assert(decreases_to!(self@ => *self@.sum));
        let inner: CalcSum<'a> = (&*self.sum).clone();
        CalcParens { open: self.open, sum: Box::new(inner), close: self.close }
    }
}

// ---- reading ----
impl<'a> CalcExpression<'a> {
    /// The kinds that an expression can start with.
    pub fn peek_kindset() -> (set: KindSet)
        ensures
            forall|k: Kind| #[trigger] set@.contains(k) <==> k == Kind::Function,
    {
        let kinds = [Kind::Function];
        let set = KindSet::new(&kinds);
        assert(kinds@[0] == Kind::Function);
        set
    }

    /// Whether an expression starts at the cursor.
    pub fn peek(p: &Parser<'a>, c: Cursor) -> (b: bool)
        requires
            c.kind() == Kind::Function ==> readable(p.source(), c.span),
        ensures
            b == opens_math(p.source(), c),
            b ==> c.token.kind == Kind::Function,
            forall|word: Seq<char>, n: nat|
                #![trigger word + parentheses(n)]
                text_at(p.source(), c.span) == word + parentheses(n) && (word.len() > 0
                    ==> word.last() != '(') ==> b == (c.token.kind == Kind::Function
                    && math_functions().contains(word)),
    {
        proof {
            assert forall|word: Seq<char>, n: nat|
                #![trigger word + parentheses(n)]
                text_at(p.source(), c.span) == word + parentheses(n) && (word.len() > 0
                    ==> word.last() != '(') implies opens_math(p.source(), c) == (c.token.kind
                == Kind::Function && math_functions().contains(word)) by {
                law_name_decides(p.source(), c, word, n);
            }
        }
        c.token.kind == Kind::Function && is_math_function(c.str_slice(p.source_text()))
    }

    /// Reads an expression. `calc()` takes a single sum; the others take one sum after another, as
    /// long as commas follow.
    pub fn parse(p: &mut Parser<'a>) -> (r: Result<Self, Diagnostic>)
        ensures
            final(p).reads_like(*old(p)),
            match (r, expression_of(old(p).source(), old(p).rest())) {
                (Ok(node), Outcome::Read(tree, left)) => {
                    &&& node@ == tree
                    &&& final(p).rest() == left
                    &&& left.len() < old(p).rest().len()
                },
                (Err(d), Outcome::Stuck(left)) => {
                    &&& d.cursor == front(left, old(p).end())
                    &&& final(p).rest() == left
                },
                _ => false,
            },
        decreases old(p).rest().len(), 0int,
    {
        let c = p.peek();
        if !Self::peek(p, c) {
            return Err(Diagnostic::unexpected(c));
        }
        let single = is_calc(c.str_slice(p.source_text()));
        let name = match p.expect(Kind::Function) {
            Ok(c) => Function(c),
            Err(d) => {
                return Err(d);
            },
        };
        let ghost source = p.source();
        let ghost inside = p.rest();
        let ghost whole = args_of(source, single, Seq::empty(), inside);
        let mut args = CalcArgs::new_in(p.bump());
        loop
            invariant_except_break
                whole == args_of(source, single, args@, p.rest()),
            invariant
                p.reads_like(*old(p)),
                source == old(p).source(),
                old(p).rest().len() > 0,
                opens_math(source, old(p).rest()[0]),
                single == opens_calc(source, old(p).rest()[0]),
                name.0 == old(p).rest()[0],
                inside == old(p).rest().drop_first(),
                whole == args_of(source, single, Seq::empty(), inside),
                args@.len() + p.rest().len() <= inside.len() <= usize::MAX,
            ensures
                whole == Outcome::Read(args@, p.rest()),
            decreases p.rest().len(),
        {
            let sum = match CalcSum::parse(p) {
                Ok(sum) => sum,
                Err(d) => {
                    return Err(d);
                },
            };
            let next = p.peek();
            if !single && next.token.kind == Kind::Comma {
                let comma = p.next();
                args.push(CalcArg { sum, trailing_comma: Some(Comma(comma)) });
            } else {
                args.push(CalcArg { sum, trailing_comma: None });
                break;
            }
        }
        match p.expect(Kind::RightParen) {
            Ok(close) => Ok(CalcExpression { name, args, close: RightParen(close) }),
            Err(d) => Err(d),
        }
    }
}

impl<'a> CalcSum<'a> {
    /// Reads a product, and then an operator and a product as long as a `+` or a `-` follows.
    pub fn parse(p: &mut Parser<'a>) -> (r: Result<Self, Diagnostic>)
        ensures
            final(p).reads_like(*old(p)),
            match (r, sum_of(old(p).source(), old(p).rest())) {
                (Ok(node), Outcome::Read(tree, left)) => {
                    &&& node@ == tree
                    &&& final(p).rest() == left
                    &&& left.len() < old(p).rest().len()
                },
                (Err(d), Outcome::Stuck(left)) => {
                    &&& d.cursor == front(left, old(p).end())
                    &&& final(p).rest() == left
                },
                _ => false,
            },
        decreases old(p).rest().len(), 3int,
    {
        let head = match CalcProduct::parse(p) {
            Ok(head) => head,
            Err(d) => {
                return Err(d);
            },
        };
        let ghost source = p.source();
        let ghost whole = sum_of(source, old(p).rest());
        let mut tail = CalcSumTail::new_in(p.bump());
        let mut next = p.peek();
        let ghost behind_head = p.rest().len();
        while CalcSumOp::peek(p, next)
            invariant
                p.reads_like(*old(p)),
                source == old(p).source(),
                whole == sum_of(source, old(p).rest()),
                whole == sum_tail_of(source, head@, tail@, p.rest()),
                next == front(p.rest(), p.end()),
                p.rest().len() == 0 ==> next.kind() == Kind::Eof,
                tail@.len() + p.rest().len() <= behind_head <= usize::MAX,
                behind_head < old(p).rest().len(),
            decreases p.rest().len(),
        {
            let op = match CalcSumOp::parse(p) {
                Ok(op) => op,
                Err(d) => {
                    return Err(d);
                },
            };
            let rhs = match CalcProduct::parse(p) {
                Ok(rhs) => rhs,
                Err(d) => {
                    return Err(d);
                },
            };
            tail.push(op, rhs);
            next = p.peek();
        }
        Ok(CalcSum { head, tail })
    }
}

impl CalcSumOp {
    /// The kinds that such an operator can have.
    pub fn peek_kindset() -> (set: KindSet)
        ensures
            forall|k: Kind| #[trigger] set@.contains(k) <==> k == Kind::Delim,
    {
        let kinds = [Kind::Delim];
        let set = KindSet::new(&kinds);
        assert(kinds@[0] == Kind::Delim);
        set
    }

    /// Whether the cursor is a `+` or a `-`.
    pub fn peek<'a>(_p: &Parser<'a>, c: Cursor) -> (b: bool)
        ensures
            b == is_sum_op(c),
            b <==> c.token.kind == Kind::Delim && (c.token.delim == Some('+') || c.token.delim
                == Some('-')),
    {
        c.token.kind == Kind::Delim && match c.token.char() {
            Some(ch) => ch == '+' || ch == '-',
            None => false,
        }
    }

    /// Reads a `+` or a `-`, and makes it require whitespace on both sides.
    pub fn parse<'a>(p: &mut Parser<'a>) -> (r: Result<Self, Diagnostic>)
        ensures
            final(p).reads_like(*old(p)),
            match r {
                Ok(op) => {
                    &&& old(p).rest().len() > 0
                    &&& is_sum_op(old(p).rest()[0])
                    &&& op@ == spaced(old(p).rest()[0])
                    &&& op.0.0.span == old(p).rest()[0].span
                    &&& op.0.0.token.kind == Kind::Delim
                    &&& op.0.0.token.delim == Some('+') || op.0.0.token.delim == Some('-')
                    &&& op.0.0.token.delim == old(p).rest()[0].token.delim
                    &&& op.0.0.token.meaning == old(p).rest()[0].token.meaning
                    &&& op.0.0.token.whitespace.enforce_before
                    &&& op.0.0.token.whitespace.enforce_after
                    &&& final(p).rest() == old(p).rest().drop_first()
                },
                Err(d) => {
                    &&& old(p).rest().len() > 0 ==> !is_sum_op(old(p).rest()[0])
                    &&& d.cursor == front(old(p).rest(), old(p).end())
                    &&& final(p).rest() == old(p).rest()
                },
            },
    {
        let c = p.peek();
        if !Self::peek(p, c) {
            return Err(Diagnostic::unexpected(c));
        }
        let delim = p.next();
        // <calc-sum> needs whitespace around its operators even where the source has none:
        // https://www.w3.org/TR/css-values-4/#calc-syntax
        let rules = AssociatedWhitespaceRules::enforce_before().union(
            AssociatedWhitespaceRules::enforce_after(),
        );
        Ok(CalcSumOp(Delim(delim.with_associated_whitespace(rules))))
    }
}

impl<'a> CalcProduct<'a> {
    /// Reads a value, and then an operator and a value as long as a `*` or a `/` follows.
    pub fn parse(p: &mut Parser<'a>) -> (r: Result<Self, Diagnostic>)
        ensures
            final(p).reads_like(*old(p)),
            match (r, product_of(old(p).source(), old(p).rest())) {
                (Ok(node), Outcome::Read(tree, left)) => {
                    &&& node@ == tree
                    &&& final(p).rest() == left
                    &&& left.len() < old(p).rest().len()
                },
                (Err(d), Outcome::Stuck(left)) => {
                    &&& d.cursor == front(left, old(p).end())
                    &&& final(p).rest() == left
                },
                _ => false,
            },
        decreases old(p).rest().len(), 2int,
    {
        let head = match CalcValue::parse(p) {
            Ok(head) => head,
            Err(d) => {
                return Err(d);
            },
        };
        let ghost source = p.source();
        let ghost whole = product_of(source, old(p).rest());
        let mut tail = CalcProductTail::new_in(p.bump());
        let mut next = p.peek();
        let ghost behind_head = p.rest().len();
        while CalcProductOp::peek(p, next)
            invariant
                p.reads_like(*old(p)),
                source == old(p).source(),
                whole == product_of(source, old(p).rest()),
                whole == product_tail_of(source, head@, tail@, p.rest()),
                next == front(p.rest(), p.end()),
                p.rest().len() == 0 ==> next.kind() == Kind::Eof,
                tail@.len() + p.rest().len() <= behind_head <= usize::MAX,
                behind_head < old(p).rest().len(),
            decreases p.rest().len(),
        {
            let op = match CalcProductOp::parse(p) {
                Ok(op) => op,
                Err(d) => {
                    return Err(d);
                },
            };
            let rhs = match CalcValue::parse(p) {
                Ok(rhs) => rhs,
                Err(d) => {
                    return Err(d);
                },
            };
            tail.push(op, rhs);
            next = p.peek();
        }
        Ok(CalcProduct { head, tail })
    }
}

impl CalcProductOp {
    /// The kinds that such an operator can have.
    pub fn peek_kindset() -> (set: KindSet)
        ensures
            forall|k: Kind| #[trigger] set@.contains(k) <==> k == Kind::Delim,
    {
        let kinds = [Kind::Delim];
        let set = KindSet::new(&kinds);
        assert(kinds@[0] == Kind::Delim);
        set
    }

    /// Whether the cursor is a `*` or a `/`.
    pub fn peek<'a>(_p: &Parser<'a>, c: Cursor) -> (b: bool)
        ensures
            b == is_product_op(c),
            b <==> c.token.kind == Kind::Delim && (c.token.delim == Some('*') || c.token.delim
                == Some('/')),
    {
        c.token.kind == Kind::Delim && match c.token.char() {
            Some(ch) => ch == '*' || ch == '/',
            None => false,
        }
    }

    /// Reads a `*` or a `/`, as it is.
    pub fn parse<'a>(p: &mut Parser<'a>) -> (r: Result<Self, Diagnostic>)
        ensures
            final(p).reads_like(*old(p)),
            match r {
                Ok(op) => {
                    &&& old(p).rest().len() > 0
                    &&& is_product_op(old(p).rest()[0])
                    &&& op@ == old(p).rest()[0]
                    &&& op.0.0 == old(p).rest()[0]
                    &&& op.0.0.token.kind == Kind::Delim
                    &&& op.0.0.token.delim == Some('*') || op.0.0.token.delim == Some('/')
                    &&& final(p).rest() == old(p).rest().drop_first()
                },
                Err(d) => {
                    &&& old(p).rest().len() > 0 ==> !is_product_op(old(p).rest()[0])
                    &&& d.cursor == front(old(p).rest(), old(p).end())
                    &&& final(p).rest() == old(p).rest()
                },
            },
    {
        let c = p.peek();
        if !Self::peek(p, c) {
            return Err(Diagnostic::unexpected(c));
        }
        Ok(CalcProductOp(Delim(p.next())))
    }
}

impl<'a> CalcValue<'a> {
    /// The kinds that a value can start with.
    pub fn peek_kindset() -> (set: KindSet)
        ensures
            forall|k: Kind| #[trigger]
                set@.contains(k) <==> k == Kind::Number || k == Kind::Dimension || k == Kind::Ident
                    || k == Kind::Function || k == Kind::LeftParen,
    {
        let kinds = [Kind::Number, Kind::Dimension, Kind::Ident, Kind::Function, Kind::LeftParen];
        let set = KindSet::new(&kinds);
        assert(kinds@[0] == Kind::Number);
        assert(kinds@[1] == Kind::Dimension);
        assert(kinds@[2] == Kind::Ident);
        assert(kinds@[3] == Kind::Function);
        assert(kinds@[4] == Kind::LeftParen);
        set
    }

    /// Whether a value can start with the cursor.
    pub fn peek(_p: &Parser<'a>, c: Cursor) -> (b: bool)
        ensures
            b == starts_value(c.kind()),
            b <==> c.token.kind == Kind::Number || c.token.kind == Kind::Dimension || c.token.kind
                == Kind::Ident || c.token.kind == Kind::Function || c.token.kind == Kind::LeftParen,
    {
        Self::peek_kindset().contains(c.token.kind)
    }

    /// Reads a value: a number, a dimension, an identifier, a function or parentheses.
    pub fn parse(p: &mut Parser<'a>) -> (r: Result<Self, Diagnostic>)
        ensures
            final(p).reads_like(*old(p)),
            match (r, value_of(old(p).source(), old(p).rest())) {
                (Ok(node), Outcome::Read(tree, left)) => {
                    &&& node@ == tree
                    &&& final(p).rest() == left
                    &&& left.len() < old(p).rest().len()
                },
                (Err(d), Outcome::Stuck(left)) => {
                    &&& d.cursor == front(left, old(p).end())
                    &&& final(p).rest() == left
                },
                _ => false,
            },
        decreases old(p).rest().len(), 1int,
    {
        let c = p.peek();
        if c.token.kind == Kind::Number {
            Ok(CalcValue::Number(Number(p.next())))
        } else if c.token.kind == Kind::Dimension {
            Ok(CalcValue::Dimension(Dimension(p.next())))
        } else if c.token.kind == Kind::Ident {
            Ok(CalcValue::Ident(Ident(p.next())))
        } else if CalcExpression::peek(p, c) {
            match CalcExpression::parse(p) {
                Ok(inner) => Ok(CalcValue::Calc(Box::new(inner))),
                Err(d) => Err(d),
            }
        } else if c.token.kind == Kind::Function {
            match FunctionBlock::parse(p) {
                Ok(block) => Ok(CalcValue::Function(block)),
                Err(d) => Err(d),
            }
        } else if c.token.kind == Kind::LeftParen {
            match CalcParens::parse(p) {
                Ok(parens) => Ok(CalcValue::Parens(parens)),
                Err(d) => Err(d),
            }
        } else {
            Err(Diagnostic::unexpected(c))
        }
    }
}

/// The kinds that a value can start with.
pub open spec fn starts_value(kind: Kind) -> bool {
    kind == Kind::Number || kind == Kind::Dimension || kind == Kind::Ident || kind == Kind::Function
        || kind == Kind::LeftParen
}

impl<'a> CalcParens<'a> {
    /// The kinds that parentheses can start with.
    pub fn peek_kindset() -> (set: KindSet)
        ensures
            forall|k: Kind| #[trigger] set@.contains(k) <==> k == Kind::LeftParen,
    {
        let kinds = [Kind::LeftParen];
        let set = KindSet::new(&kinds);
        assert(kinds@[0] == Kind::LeftParen);
        set
    }

    /// Whether the cursor is an opening parenthesis.
    pub fn peek(_p: &Parser<'a>, c: Cursor) -> (b: bool)
        ensures
            b == (c.kind() == Kind::LeftParen),
    {
        Self::peek_kindset().contains(c.token.kind)
    }

    /// Reads a sum between parentheses.
    pub fn parse(p: &mut Parser<'a>) -> (r: Result<Self, Diagnostic>)
        ensures
            final(p).reads_like(*old(p)),
            match (r, parens_of(old(p).source(), old(p).rest())) {
                (Ok(node), Outcome::Read(tree, left)) => {
                    &&& node@ == tree
                    &&& final(p).rest() == left
                    &&& left.len() < old(p).rest().len()
                },
                (Err(d), Outcome::Stuck(left)) => {
                    &&& d.cursor == front(left, old(p).end())
                    &&& final(p).rest() == left
                },
                _ => false,
            },
        decreases old(p).rest().len(), 0int,
    {
        let open = match p.expect(Kind::LeftParen) {
            Ok(c) => LeftParen(c),
            Err(d) => {
                return Err(d);
            },
        };
        let sum = match CalcSum::parse(p) {
            Ok(sum) => sum,
            Err(d) => {
                return Err(d);
            },
        };
        match p.expect(Kind::RightParen) {
            Ok(close) => Ok(CalcParens { open, sum: Box::new(sum), close: RightParen(close) }),
            Err(d) => Err(d),
        }
    }
}

// ---- writing ----
impl<'a> CalcExpression<'a> {
    /// Hands every cursor of the expression to the sink, in order.
    pub fn to_cursors<S: CursorSink>(&self, s: &mut S)
        ensures
            final(s).received() == old(s).received() + expression_cursors(self@),
        decreases self@,
    {
        self.name.0.to_cursors(s);
        let ghost done = old(s).received().push(self.name.0);
        let n: usize = self.args.len();
        let mut i: usize = 0;
        assert(self.args@.skip(0) =~= self.args@);
        while i < n
            invariant
                i <= n == self.args@.len(),
                self@.args == self.args@,
                done + args_cursors(self.args@) == s.received() + args_cursors(
                    self.args@.skip(i as int),
                ),
            decreases n - i,
        {
            let ghost so_far = s.received();
            let ghost left = self.args@.skip(i as int);
            assert(left.drop_first() =~= self.args@.skip(i + 1));
            if let Some(arg) = self.args.get(i) {
                arg.sum.to_cursors(s);
                if let Some(comma) = arg.trailing_comma {
                    comma.0.to_cursors(s);
                }
                assert(s.received() + args_cursors(left.drop_first()) =~= so_far + args_cursors(
                    left,
                ));
            }
            i = i + 1;
        }
        assert(self.args@.skip(i as int) =~= Seq::empty());
        self.close.0.to_cursors(s);
        assert(s.received() =~= old(s).received() + expression_cursors(self@));
    }

    /// From the name to the parenthesis that closes the expression.
    pub fn to_span(&self) -> (s: Span)
        ensures
            s == expression_span(self@),
    {
        self.name.0.to_span() + self.close.0.to_span()
    }

    /// Whether both have the same name and, one by one, the same sums as arguments.
    pub fn semantic_eq(&self, other: &Self) -> (b: bool)
        ensures
            b == same_expression(self@, other@),
        decreases self@,
    {
        if !self.name.0.semantic_eq(&other.name.0) || self.args.len() != other.args.len() {
            return false;
        }
        let n: usize = self.args.len();
        let mut i: usize = 0;
        while i < n
            invariant
                i <= n == self.args@.len(),
                n == other.args@.len(),
                self@.args == self.args@,
                other@.args == other.args@,
                forall|j: int|
                    0 <= j < i ==> same_sum(#[trigger] self.args@[j].sum, other.args@[j].sum),
            decreases n - i,
        {
            if let (Some(a), Some(b)) = (self.args.get(i), other.args.get(i)) {
                if !a.sum.semantic_eq(&b.sum) {
                    assert(!same_sum(self@.args[i as int].sum, other@.args[i as int].sum));
                    return false;
                }
            }
            i = i + 1;
        }
        true
    }
}

impl<'a> CalcSum<'a> {
    /// Hands every cursor of the sum to the sink, in order.
    pub fn to_cursors<S: CursorSink>(&self, s: &mut S)
        ensures
            final(s).received() == old(s).received() + sum_cursors(self@),
        decreases self@,
    {
        self.head.to_cursors(s);
        let ghost done = s.received();
        let n: usize = self.tail.len();
        let mut i: usize = 0;
        assert(self.tail@.skip(0) =~= self.tail@);
        while i < n
            invariant
                i <= n == self.tail@.len(),
                self@.tail == self.tail@,
                done + sum_tail_cursors(self.tail@) == s.received() + sum_tail_cursors(
                    self.tail@.skip(i as int),
                ),
            decreases n - i,
        {
            let ghost so_far = s.received();
            let ghost left = self.tail@.skip(i as int);
            assert(left.drop_first() =~= self.tail@.skip(i + 1));
            if let Some(item) = self.tail.get(i) {
                item.0.to_cursors(s);
                item.1.to_cursors(s);
                assert(s.received() + sum_tail_cursors(left.drop_first()) =~= so_far
                    + sum_tail_cursors(left));
            }
            i = i + 1;
        }
        assert(self.tail@.skip(i as int) =~= Seq::empty());
        assert(s.received() =~= old(s).received() + sum_cursors(self@));
    }

    /// From the first product to the last.
    pub fn to_span(&self) -> (s: Span)
        ensures
            s == sum_span(self@),
    {
        let n: usize = self.tail.len();
        if n > 0 {
            if let Some(last) = self.tail.get(n - 1) {
                return self.head.to_span() + last.1.to_span();
            }
        }
        self.head.to_span()
    }

    /// Whether both have, one by one, the same operators and the same products.
    pub fn semantic_eq(&self, other: &Self) -> (b: bool)
        ensures
            b == same_sum(self@, other@),
        decreases self@,
    {
        if !self.head.semantic_eq(&other.head) || self.tail.len() != other.tail.len() {
            return false;
        }
        let n: usize = self.tail.len();
        let mut i: usize = 0;
        while i < n
            invariant
                i <= n == self.tail@.len(),
                n == other.tail@.len(),
                self@.tail == self.tail@,
                other@.tail == other.tail@,
                forall|j: int|
                    0 <= j < i ==> (#[trigger] self.tail@[j]).0.same(other.tail@[j].0)
                        && same_product(self.tail@[j].1, other.tail@[j].1),
            decreases n - i,
        {
            if let (Some(a), Some(b)) = (self.tail.get(i), other.tail.get(i)) {
                assert(decreases_to!(self@ => self@.tail[i as int].1));
                if !(a.0.semantic_eq(&b.0) && a.1.semantic_eq(&b.1)) {
                    assert(!(self@.tail[i as int].0.same(other@.tail[i as int].0)
                        && same_product(self@.tail[i as int].1, other@.tail[i as int].1)));
                    return false;
                }
            }
            i = i + 1;
        }
        true
    }
}

impl CalcSumOp {
    /// Hands the operator to the sink.
    pub fn to_cursors<S: CursorSink>(&self, s: &mut S)
        ensures
            final(s).received() == old(s).received().push(self@),
    {
        self.0.0.to_cursors(s);
    }

    /// The stretch of source of the operator.
    pub fn to_span(&self) -> (s: Span)
        ensures
            s == self@.span,
    {
        self.0.0.to_span()
    }

    /// Whether both are the same operator.
    pub fn semantic_eq(&self, other: &Self) -> (b: bool)
        ensures
            b == self@.same(other@),
    {
        self.0.0.semantic_eq(&other.0.0)
    }
}

impl<'a> CalcProduct<'a> {
    /// Hands every cursor of the product to the sink, in order.
    pub fn to_cursors<S: CursorSink>(&self, s: &mut S)
        ensures
            final(s).received() == old(s).received() + product_cursors(self@),
        decreases self@,
    {
        self.head.to_cursors(s);
        let ghost done = s.received();
        let n: usize = self.tail.len();
        let mut i: usize = 0;
        assert(self.tail@.skip(0) =~= self.tail@);
        while i < n
            invariant
                i <= n == self.tail@.len(),
                self@.tail == self.tail@,
                done + product_tail_cursors(self.tail@) == s.received() + product_tail_cursors(
                    self.tail@.skip(i as int),
                ),
            decreases n - i,
        {
            let ghost so_far = s.received();
            let ghost left = self.tail@.skip(i as int);
            assert(left.drop_first() =~= self.tail@.skip(i + 1));
            if let Some(item) = self.tail.get(i) {
                item.0.to_cursors(s);
                item.1.to_cursors(s);
                assert(s.received() + product_tail_cursors(left.drop_first()) =~= so_far
                    + product_tail_cursors(left));
            }
            i = i + 1;
        }
        assert(self.tail@.skip(i as int) =~= Seq::empty());
        assert(s.received() =~= old(s).received() + product_cursors(self@));
    }

    /// From the first value to the last.
    pub fn to_span(&self) -> (s: Span)
        ensures
            s == product_span(self@),
    {
        let n: usize = self.tail.len();
        if n > 0 {
            if let Some(last) = self.tail.get(n - 1) {
                return self.head.to_span() + last.1.to_span();
            }
        }
        self.head.to_span()
    }

    /// Whether both have, one by one, the same operators and the same values.
    pub fn semantic_eq(&self, other: &Self) -> (b: bool)
        ensures
            b == same_product(self@, other@),
        decreases self@,
    {
        if !self.head.semantic_eq(&other.head) || self.tail.len() != other.tail.len() {
            return false;
        }
        let n: usize = self.tail.len();
        let mut i: usize = 0;
        while i < n
            invariant
                i <= n == self.tail@.len(),
                n == other.tail@.len(),
                self@.tail == self.tail@,
                other@.tail == other.tail@,
                forall|j: int|
                    0 <= j < i ==> (#[trigger] self.tail@[j]).0.same(other.tail@[j].0)
                        && same_value(self.tail@[j].1, other.tail@[j].1),
            decreases n - i,
        {
            if let (Some(a), Some(b)) = (self.tail.get(i), other.tail.get(i)) {
                assert(decreases_to!(self@ => self@.tail[i as int].1));
                if !(a.0.semantic_eq(&b.0) && a.1.semantic_eq(&b.1)) {
                    assert(!(self@.tail[i as int].0.same(other@.tail[i as int].0)
                        && same_value(self@.tail[i as int].1, other@.tail[i as int].1)));
                    return false;
                }
            }
            i = i + 1;
        }
        true
    }
}

impl CalcProductOp {
    /// Hands the operator to the sink.
    pub fn to_cursors<S: CursorSink>(&self, s: &mut S)
        ensures
            final(s).received() == old(s).received().push(self@),
    {
        self.0.0.to_cursors(s);
    }

    /// The stretch of source of the operator.
    pub fn to_span(&self) -> (s: Span)
        ensures
            s == self@.span,
    {
        self.0.0.to_span()
    }

    /// Whether both are the same operator.
    pub fn semantic_eq(&self, other: &Self) -> (b: bool)
        ensures
            b == self@.same(other@),
    {
        self.0.0.semantic_eq(&other.0.0)
    }
}

impl<'a> CalcValue<'a> {
    /// Hands every cursor of the value to the sink, in order.
    pub fn to_cursors<S: CursorSink>(&self, s: &mut S)
        ensures
            final(s).received() == old(s).received() + value_cursors(self@),
        decreases self@,
    {
        match self {
            CalcValue::Number(t) => t.0.to_cursors(s),
            CalcValue::Dimension(t) => t.0.to_cursors(s),
            CalcValue::Ident(t) => t.0.to_cursors(s),
            CalcValue::Calc(t) => {
                assert(decreases_to!(self@ => self@->Calc_0));
                t.to_cursors(s)
            },
            CalcValue::Function(t) => t.to_cursors(s),
            CalcValue::Parens(t) => {
                assert(decreases_to!(self@ => self@->Parens_0));
                t.to_cursors(s)
            },
        }
    }

    /// The stretch of source of the value.
    pub fn to_span(&self) -> (s: Span)
        ensures
            s == value_span(self@),
    {
        match self {
            CalcValue::Number(t) => t.0.to_span(),
            CalcValue::Dimension(t) => t.0.to_span(),
            CalcValue::Ident(t) => t.0.to_span(),
            CalcValue::Calc(t) => t.to_span(),
            CalcValue::Function(t) => t.to_span(),
            CalcValue::Parens(t) => t.to_span(),
        }
    }

    /// Whether both are of one sort and mean the same.
    pub fn semantic_eq(&self, other: &Self) -> (b: bool)
        ensures
            b == same_value(self@, other@),
        decreases self@,
    {
        match (self, other) {
            (CalcValue::Number(a), CalcValue::Number(b)) => a.0.semantic_eq(&b.0),
            (CalcValue::Dimension(a), CalcValue::Dimension(b)) => a.0.semantic_eq(&b.0),
            (CalcValue::Ident(a), CalcValue::Ident(b)) => a.0.semantic_eq(&b.0),
            (CalcValue::Calc(a), CalcValue::Calc(b)) => {
                assert(decreases_to!(self@ => self@->Calc_0));
                a.semantic_eq(b)
            },
            (CalcValue::Function(a), CalcValue::Function(b)) => a.semantic_eq(b),
            (CalcValue::Parens(a), CalcValue::Parens(b)) => {
                assert(decreases_to!(self@ => self@->Parens_0));
                a.semantic_eq(b)
            },
            _ => false,
        }
    }
}

impl<'a> CalcParens<'a> {
    /// Hands every cursor of the parentheses to the sink, in order.
    pub fn to_cursors<S: CursorSink>(&self, s: &mut S)
        ensures
            final(s).received() == old(s).received() + parens_cursors(self@),
        decreases self@,
    {
        self.open.0.to_cursors(s);
        self.sum.to_cursors(s);
        self.close.0.to_cursors(s);
        assert(s.received() =~= old(s).received() + parens_cursors(self@));
    }

    /// From the opening to the closing parenthesis.
    pub fn to_span(&self) -> (s: Span)
        ensures
            s == parens_span(self@),
    {
        self.open.0.to_span() + self.close.0.to_span()
    }

    /// Whether both hold the same sum.
    pub fn semantic_eq(&self, other: &Self) -> (b: bool)
        ensures
            b == same_parens(self@, other@),
        decreases self@,
    {
        self.sum.semantic_eq(&other.sum)
    }
}

} // verus!
