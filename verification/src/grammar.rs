//! The grammar of calculations, over the meaningful cursors of a source.
//!
//! Each `*_of` function says what is read at the front of a sequence of cursors: the tree and what
//! is left behind it, or the point at which no reading can go on.
use vstd::prelude::*;

use crate::balance::balanced;
use crate::cursor::{text_at, Cursor};
use crate::names::{names_calc, names_math_function};
use crate::token::{AssociatedWhitespaceRules, Kind};
use crate::tree::{ArgTree, BlockTree, ExpressionTree, ParensTree, ProductTree, SumTree, ValueTree};

verus! {

/// What comes of reading cursors from the front.
pub enum Outcome<T> {
    /// A tree was read. The cursors behind it are left.
    Read(T, Seq<Cursor>),
    /// Nothing fits at the front of the cursors that are left.
    Stuck(Seq<Cursor>),
}

impl<T> Outcome<T> {
    /// The cursors that are left.
    pub open spec fn left(self) -> Seq<Cursor> {
        match self {
            Outcome::Read(_, left) => left,
            Outcome::Stuck(left) => left,
        }
    }
}

/// Whether the first cursor has the given kind.
pub open spec fn starts_with(cursors: Seq<Cursor>, kind: Kind) -> bool {
    cursors.len() > 0 && cursors[0].kind() == kind
}

/// Whether a cursor opens a math function.
pub open spec fn opens_math(source: Seq<char>, c: Cursor) -> bool {
    c.kind() == Kind::Function && names_math_function(text_at(source, c.span))
}

/// Whether a cursor opens a `calc()`.
pub open spec fn opens_calc(source: Seq<char>, c: Cursor) -> bool {
    c.kind() == Kind::Function && names_calc(text_at(source, c.span))
}

/// A `+` or a `-`.
pub open spec fn is_sum_op(c: Cursor) -> bool {
    c.token.is_delim_of('+', '-')
}

/// A `*` or a `/`.
pub open spec fn is_product_op(c: Cursor) -> bool {
    c.token.is_delim_of('*', '/')
}

/// Whether the first cursor is a `+` or a `-`.
pub open spec fn starts_with_sum_op(cursors: Seq<Cursor>) -> bool {
    cursors.len() > 0 && is_sum_op(cursors[0])
}

/// Whether the first cursor is a `*` or a `/`.
pub open spec fn starts_with_product_op(cursors: Seq<Cursor>) -> bool {
    cursors.len() > 0 && is_product_op(cursors[0])
}

/// The cursor with whitespace required on both sides.
pub open spec fn spaced(c: Cursor) -> Cursor {
    c.ruled(AssociatedWhitespaceRules::spec_enforced())
}

// ---- function blocks ----
/// The kind that closes what a kind opens.
pub open spec fn closer_of(kind: Kind) -> Option<Kind> {
    match kind {
        Kind::Function => Some(Kind::RightParen),
        Kind::LeftParen => Some(Kind::RightParen),
        Kind::LeftSquare => Some(Kind::RightSquare),
        Kind::LeftCurly => Some(Kind::RightCurly),
        _ => None,
    }
}

/// Whether a kind closes something, or ends the input.
pub open spec fn is_closer(kind: Kind) -> bool {
    kind == Kind::RightParen || kind == Kind::RightSquare || kind == Kind::RightCurly || kind
        == Kind::Eof
}

/// Reads over a bracketed stretch. `awaited` holds the closers of what is open, innermost last.
/// The flag says whether the outermost closer was reached; the number says where the scan stopped:
/// at that closer, or at the first cursor that closes nothing that is open.
pub open spec fn scan(cursors: Seq<Cursor>, awaited: Seq<Kind>) -> (bool, int)
    decreases cursors.len(),
{
    if cursors.len() == 0 || awaited.len() == 0 {
        (false, 0)
    } else {
        let kind = cursors[0].kind();
        if is_closer(kind) {
            if kind != awaited.last() {
                (false, 0)
            } else if awaited.len() == 1 {
                (true, 0)
            } else {
                one_on(scan(cursors.drop_first(), awaited.drop_last()))
            }
        } else {
            match closer_of(kind) {
                Some(closer) => one_on(scan(cursors.drop_first(), awaited.push(closer))),
                None => one_on(scan(cursors.drop_first(), awaited)),
            }
        }
    }
}

/// The same stop, seen from one cursor earlier.
pub open spec fn one_on(stop: (bool, int)) -> (bool, int) {
    (stop.0, stop.1 + 1)
}

/// A function name, any cursors in which brackets pair up, and the parenthesis that closes it.
pub open spec fn block_of(cursors: Seq<Cursor>) -> Outcome<BlockTree> {
    if !starts_with(cursors, Kind::Function) {
        Outcome::Stuck(cursors)
    } else {
        let body = cursors.drop_first();
        let (closed, at) = scan(body, seq![Kind::RightParen]);
        if closed {
            Outcome::Read(
                BlockTree { name: cursors[0], params: body.take(at), close: body[at] },
                body.skip(at + 1),
            )
        } else {
            Outcome::Stuck(body.skip(at))
        }
    }
}

// ---- calculations ----
/// The name of a math function, its arguments, and the parenthesis that closes it.
pub open spec fn expression_of(source: Seq<char>, cursors: Seq<Cursor>) -> Outcome<ExpressionTree>
    decreases cursors.len(), 0int,
{
    if cursors.len() > 0 && opens_math(source, cursors[0]) {
        let single = opens_calc(source, cursors[0]);
        match args_of(source, single, Seq::empty(), cursors.drop_first()) {
            Outcome::Read(args, left) => if starts_with(left, Kind::RightParen) {
                Outcome::Read(
                    ExpressionTree { name: cursors[0], args, close: left[0] },
                    left.drop_first(),
                )
            } else {
                Outcome::Stuck(left)
            },
            Outcome::Stuck(left) => Outcome::Stuck(left),
        }
    } else {
        Outcome::Stuck(cursors)
    }
}

/// One sum after another, as long as a comma follows. Where only a single sum is due, no comma is
/// taken. (A sum never leaves more cursors than there were: the test keeps the recursion finite.)
pub open spec fn args_of(
    source: Seq<char>,
    single: bool,
    before: Seq<ArgTree>,
    cursors: Seq<Cursor>,
) -> Outcome<Seq<ArgTree>>
    decreases cursors.len(), 4int,
{
    match sum_of(source, cursors) {
        Outcome::Read(sum, left) => if !single && starts_with(left, Kind::Comma) {
            if left.len() <= cursors.len() {
                args_of(
                    source,
                    single,
                    before.push(ArgTree { sum, trailing_comma: Some(left[0]) }),
                    left.drop_first(),
                )
            } else {
                Outcome::Stuck(left)
            }
        } else {
            Outcome::Read(before.push(ArgTree { sum, trailing_comma: None }), left)
        },
        Outcome::Stuck(left) => Outcome::Stuck(left),
    }
}

/// A product, and a further one behind each `+` or `-`. (What is read is never empty: the tests on
/// lengths keep the recursion finite.)
pub open spec fn sum_of(source: Seq<char>, cursors: Seq<Cursor>) -> Outcome<SumTree>
    decreases cursors.len(), 3int,
{
    match product_of(source, cursors) {
        Outcome::Read(head, left) => if left.len() < cursors.len() {
            sum_tail_of(source, head, Seq::empty(), left)
        } else {
            Outcome::Stuck(left)
        },
        Outcome::Stuck(left) => Outcome::Stuck(left),
    }
}

/// What follows the products that were read so far.
pub open spec fn sum_tail_of(
    source: Seq<char>,
    head: ProductTree,
    tail: Seq<(Cursor, ProductTree)>,
    cursors: Seq<Cursor>,
) -> Outcome<SumTree>
    decreases cursors.len(), 0int,
{
    if starts_with_sum_op(cursors) {
        match product_of(source, cursors.drop_first()) {
            Outcome::Read(rhs, left) => if left.len() < cursors.len() {
                sum_tail_of(source, head, tail.push((spaced(cursors[0]), rhs)), left)
            } else {
                Outcome::Stuck(left)
            },
            Outcome::Stuck(left) => Outcome::Stuck(left),
        }
    } else {
        Outcome::Read(SumTree { head, tail }, cursors)
    }
}

/// A value, and a further one behind each `*` or `/`.
pub open spec fn product_of(source: Seq<char>, cursors: Seq<Cursor>) -> Outcome<ProductTree>
    decreases cursors.len(), 2int,
{
    match value_of(source, cursors) {
        Outcome::Read(head, left) => if left.len() < cursors.len() {
            product_tail_of(source, head, Seq::empty(), left)
        } else {
            Outcome::Stuck(left)
        },
        Outcome::Stuck(left) => Outcome::Stuck(left),
    }
}

/// What follows the values that were read so far.
pub open spec fn product_tail_of(
    source: Seq<char>,
    head: ValueTree,
    tail: Seq<(Cursor, ValueTree)>,
    cursors: Seq<Cursor>,
) -> Outcome<ProductTree>
    decreases cursors.len(), 0int,
{
    if starts_with_product_op(cursors) {
        match value_of(source, cursors.drop_first()) {
            Outcome::Read(rhs, left) => if left.len() < cursors.len() {
                product_tail_of(source, head, tail.push((cursors[0], rhs)), left)
            } else {
                Outcome::Stuck(left)
            },
            Outcome::Stuck(left) => Outcome::Stuck(left),
        }
    } else {
        Outcome::Read(ProductTree { head, tail }, cursors)
    }
}

/// One value, told by the kind of its first cursor and, for a function, by its name.
pub open spec fn value_of(source: Seq<char>, cursors: Seq<Cursor>) -> Outcome<ValueTree>
    decreases cursors.len(), 1int,
{
    if cursors.len() == 0 {
        Outcome::Stuck(cursors)
    } else {
        match cursors[0].kind() {
            Kind::Number => Outcome::Read(ValueTree::Number(cursors[0]), cursors.drop_first()),
            Kind::Dimension => Outcome::Read(
                ValueTree::Dimension(cursors[0]),
                cursors.drop_first(),
            ),
            Kind::Ident => Outcome::Read(ValueTree::Ident(cursors[0]), cursors.drop_first()),
            Kind::Function => if opens_math(source, cursors[0]) {
                match expression_of(source, cursors) {
                    Outcome::Read(e, left) => Outcome::Read(ValueTree::Calc(e), left),
                    Outcome::Stuck(left) => Outcome::Stuck(left),
                }
            } else {
                match block_of(cursors) {
                    Outcome::Read(b, left) => Outcome::Read(ValueTree::Function(b), left),
                    Outcome::Stuck(left) => Outcome::Stuck(left),
                }
            },
            Kind::LeftParen => match parens_of(source, cursors) {
                Outcome::Read(p, left) => Outcome::Read(ValueTree::Parens(p), left),
                Outcome::Stuck(left) => Outcome::Stuck(left),
            },
            _ => Outcome::Stuck(cursors),
        }
    }
}

/// A sum between parentheses.
pub open spec fn parens_of(source: Seq<char>, cursors: Seq<Cursor>) -> Outcome<ParensTree>
    decreases cursors.len(), 0int,
{
    if !starts_with(cursors, Kind::LeftParen) {
        Outcome::Stuck(cursors)
    } else {
        match sum_of(source, cursors.drop_first()) {
            Outcome::Read(sum, left) => if starts_with(left, Kind::RightParen) {
                Outcome::Read(
                    ParensTree { open: cursors[0], sum: Box::new(sum), close: left[0] },
                    left.drop_first(),
                )
            } else {
                Outcome::Stuck(left)
            },
            Outcome::Stuck(left) => Outcome::Stuck(left),
        }
    }
}

// ---- grammatical trees ----
/// A math function that closes, with at least one argument, and with exactly one if it is `calc()`.
pub open spec fn expression_fits(source: Seq<char>, t: ExpressionTree) -> bool
    decreases t,
{
    &&& opens_math(source, t.name)
    &&& args_fit(source, opens_calc(source, t.name), t.args)
    &&& t.close.kind() == Kind::RightParen
}

/// Sums with a comma behind each of them but the last, which has none.
pub open spec fn args_fit(source: Seq<char>, single: bool, args: Seq<ArgTree>) -> bool
    decreases args,
{
    &&& args.len() > 0
    &&& single ==> args.len() == 1
    &&& forall|i: int|
        0 <= i < args.len() ==> sum_fits(source, #[trigger] args[i].sum) && comma_fits(
            args[i].trailing_comma,
            i == args.len() - 1,
        )
}

/// The last argument has no comma; the others have one.
pub open spec fn comma_fits(comma: Option<Cursor>, last: bool) -> bool {
    match comma {
        Some(c) => !last && c.kind() == Kind::Comma,
        None => last,
    }
}

/// Products with a `+` or a `-` between each two.
pub open spec fn sum_fits(source: Seq<char>, t: SumTree) -> bool
    decreases t,
{
    &&& product_fits(source, t.head)
    &&& forall|i: int|
        0 <= i < t.tail.len() ==> is_sum_op((#[trigger] t.tail[i]).0) && product_fits(
            source,
            t.tail[i].1,
        )
}

/// Values with a `*` or a `/` between each two.
pub open spec fn product_fits(source: Seq<char>, t: ProductTree) -> bool
    decreases t,
{
    &&& value_fits(source, t.head)
    &&& forall|i: int|
        0 <= i < t.tail.len() ==> is_product_op((#[trigger] t.tail[i]).0) && value_fits(
            source,
            t.tail[i].1,
        )
}

/// A leaf of the right kind, or something grammatical that nests.
pub open spec fn value_fits(source: Seq<char>, t: ValueTree) -> bool
    decreases t,
{
    match t {
        ValueTree::Number(c) => c.kind() == Kind::Number,
        ValueTree::Dimension(c) => c.kind() == Kind::Dimension,
        ValueTree::Ident(c) => c.kind() == Kind::Ident,
        ValueTree::Calc(e) => expression_fits(source, e),
        ValueTree::Function(b) => !opens_math(source, b.name) && block_fits(b),
        ValueTree::Parens(p) => parens_fits(source, p),
    }
}

/// A grammatical sum between parentheses.
pub open spec fn parens_fits(source: Seq<char>, t: ParensTree) -> bool
    decreases t,
{
    &&& t.open.kind() == Kind::LeftParen
    &&& sum_fits(source, *t.sum)
    &&& t.close.kind() == Kind::RightParen
}

/// A function name, cursors in which brackets pair up, and a closing parenthesis.
pub open spec fn block_fits(t: BlockTree) -> bool {
    &&& t.name.kind() == Kind::Function
    &&& balanced(t.params)
    &&& t.close.kind() == Kind::RightParen
}

} // verus!
