//! The same tokens, wherever they stand, are read as trees that mean the same.
use vstd::prelude::*;

use crate::cursor::Cursor;
use crate::grammar::{
    args_of, block_of, expression_of, opens_calc, opens_math, parens_of, product_of,
    product_tail_of, scan, spaced, starts_with, starts_with_product_op, starts_with_sum_op, sum_of,
    sum_tail_of, value_of, Outcome,
};
use crate::token::Kind;
use crate::tree::{
    same_block, same_expression, same_parens, same_product, same_sum, same_value, ArgTree,
    ProductTree, ValueTree,
};

verus! {

/// Two inputs, each with the source it was taken from, hold the same tokens one by one, and the
/// same ones among them open a math function or a `calc()`.
pub open spec fn alike(s1: Seq<char>, a: Seq<Cursor>, s2: Seq<char>, b: Seq<Cursor>) -> bool {
    &&& a.len() == b.len()
    &&& forall|i: int|
        0 <= i < a.len() ==> {
            &&& (#[trigger] a[i]).same(b[i])
            &&& opens_math(s1, a[i]) == opens_math(s2, b[i])
            &&& opens_calc(s1, a[i]) == opens_calc(s2, b[i])
        }
}

proof fn lemma_alike_behind(
    s1: Seq<char>,
    a: Seq<Cursor>,
    s2: Seq<char>,
    b: Seq<Cursor>,
    k: int,
)
    requires
        alike(s1, a, s2, b),
        0 <= k <= a.len(),
    ensures
        alike(s1, a.skip(k), s2, b.skip(k)),
        k == 1 ==> alike(s1, a.drop_first(), s2, b.drop_first()),
        k < a.len() ==> a[k].same(b[k]),
        k < a.len() ==> opens_math(s1, a[k]) == opens_math(s2, b[k]),
        k < a.len() ==> opens_calc(s1, a[k]) == opens_calc(s2, b[k]),
{
    assert forall|i: int| 0 <= i < a.skip(k).len() implies {
        &&& (#[trigger] a.skip(k)[i]).same(b.skip(k)[i])
        &&& opens_math(s1, a.skip(k)[i]) == opens_math(s2, b.skip(k)[i])
        &&& opens_calc(s1, a.skip(k)[i]) == opens_calc(s2, b.skip(k)[i])
    } by {
        assert(a[k + i].same(b[k + i]));
    }
    if k == 1 {
        assert(a.drop_first() =~= a.skip(1));
        assert(b.drop_first() =~= b.skip(1));
    }
}

proof fn lemma_scan_alike(
    s1: Seq<char>,
    a: Seq<Cursor>,
    s2: Seq<char>,
    b: Seq<Cursor>,
    awaited: Seq<Kind>,
)
    requires
        alike(s1, a, s2, b),
    ensures
        scan(a, awaited) == scan(b, awaited),
    decreases a.len(),
{
    if a.len() > 0 && awaited.len() > 0 {
        lemma_alike_behind(s1, a, s2, b, 0);
        lemma_alike_behind(s1, a, s2, b, 1);
        let kind = a[0].kind();
        let next = if crate::grammar::is_closer(kind) {
            awaited.drop_last()
        } else {
            match crate::grammar::closer_of(kind) {
                Some(closer) => awaited.push(closer),
                None => awaited,
            }
        };
        lemma_scan_alike(s1, a.drop_first(), s2, b.drop_first(), next);
    }
}

/// The same tokens, read as a function, mean the same or get stuck at the same token.
pub proof fn law_block_alike(s1: Seq<char>, a: Seq<Cursor>, s2: Seq<char>, b: Seq<Cursor>)
    requires
        alike(s1, a, s2, b),
    ensures
        match (block_of(a), block_of(b)) {
            (Outcome::Read(t, l), Outcome::Read(u, m)) => same_block(t, u) && alike(s1, l, s2, m),
            (Outcome::Stuck(l), Outcome::Stuck(m)) => alike(s1, l, s2, m),
            _ => false,
        },
{
    if a.len() > 0 {
        lemma_alike_behind(s1, a, s2, b, 0);
    }
    if starts_with(a, Kind::Function) {
        lemma_alike_behind(s1, a, s2, b, 1);
        let body = a.drop_first();
        let other = b.drop_first();
        crate::laws::written::lemma_scan_stops(body, seq![Kind::RightParen]);
        lemma_scan_alike(s1, body, s2, other, seq![Kind::RightParen]);
        let (closed, at) = scan(body, seq![Kind::RightParen]);
        lemma_alike_behind(s1, body, s2, other, at);
        if closed {
            lemma_alike_behind(s1, body, s2, other, at + 1);
            assert forall|i: int| 0 <= i < at implies (#[trigger] body.take(at)[i]).same(
                other.take(at)[i],
            ) by {
                assert(body[i].same(other[i]));
            }
        }
    }
}

/// The same tokens, read as a value, mean the same or get stuck at the same token.
pub proof fn law_value_alike(s1: Seq<char>, a: Seq<Cursor>, s2: Seq<char>, b: Seq<Cursor>)
    requires
        alike(s1, a, s2, b),
    ensures
        match (value_of(s1, a), value_of(s2, b)) {
            (Outcome::Read(t, l), Outcome::Read(u, m)) => same_value(t, u) && alike(s1, l, s2, m),
            (Outcome::Stuck(l), Outcome::Stuck(m)) => alike(s1, l, s2, m),
            _ => false,
        },
    decreases a.len(), 1int,
{
    if a.len() > 0 {
        lemma_alike_behind(s1, a, s2, b, 0);
        lemma_alike_behind(s1, a, s2, b, 1);
        let kind = a[0].kind();
        if kind == Kind::Function {
            if opens_math(s1, a[0]) {
                law_expression_alike(s1, a, s2, b);
            } else {
                law_block_alike(s1, a, s2, b);
            }
        } else if kind == Kind::LeftParen {
            law_parens_alike(s1, a, s2, b);
        }
    }
}

/// The same tokens, read as parentheses, mean the same or get stuck at the same token.
pub proof fn law_parens_alike(s1: Seq<char>, a: Seq<Cursor>, s2: Seq<char>, b: Seq<Cursor>)
    requires
        alike(s1, a, s2, b),
    ensures
        match (parens_of(s1, a), parens_of(s2, b)) {
            (Outcome::Read(t, l), Outcome::Read(u, m)) => same_parens(t, u) && alike(s1, l, s2, m),
            (Outcome::Stuck(l), Outcome::Stuck(m)) => alike(s1, l, s2, m),
            _ => false,
        },
    decreases a.len(), 0int,
{
    if a.len() > 0 {
        lemma_alike_behind(s1, a, s2, b, 0);
        if starts_with(a, Kind::LeftParen) {
            lemma_alike_behind(s1, a, s2, b, 1);
            law_sum_alike(s1, a.drop_first(), s2, b.drop_first());
            let l = sum_of(s1, a.drop_first()).left();
            let m = sum_of(s2, b.drop_first()).left();
            if l.len() > 0 {
                lemma_alike_behind(s1, l, s2, m, 0);
                lemma_alike_behind(s1, l, s2, m, 1);
            }
        }
    }
}

/// The same tokens, read as a product, mean the same or get stuck at the same token.
pub proof fn law_product_alike(s1: Seq<char>, a: Seq<Cursor>, s2: Seq<char>, b: Seq<Cursor>)
    requires
        alike(s1, a, s2, b),
    ensures
        match (product_of(s1, a), product_of(s2, b)) {
            (Outcome::Read(t, l), Outcome::Read(u, m)) => same_product(t, u) && alike(s1, l, s2, m),
            (Outcome::Stuck(l), Outcome::Stuck(m)) => alike(s1, l, s2, m),
            _ => false,
        },
    decreases a.len(), 2int,
{
    law_value_alike(s1, a, s2, b);
    match (value_of(s1, a), value_of(s2, b)) {
        (Outcome::Read(h, l), Outcome::Read(g, m)) => {
            if l.len() < a.len() {
                lemma_product_tail_alike(s1, h, Seq::empty(), l, s2, g, Seq::empty(), m);
            }
        },
        _ => {},
    }
}

proof fn lemma_product_tail_alike(
    s1: Seq<char>,
    h: ValueTree,
    t: Seq<(Cursor, ValueTree)>,
    a: Seq<Cursor>,
    s2: Seq<char>,
    g: ValueTree,
    u: Seq<(Cursor, ValueTree)>,
    b: Seq<Cursor>,
)
    requires
        alike(s1, a, s2, b),
        same_value(h, g),
        t.len() == u.len(),
        forall|i: int|
            0 <= i < t.len() ==> (#[trigger] t[i]).0.same(u[i].0) && same_value(t[i].1, u[i].1),
    ensures
        match (product_tail_of(s1, h, t, a), product_tail_of(s2, g, u, b)) {
            (Outcome::Read(t, l), Outcome::Read(u, m)) => same_product(t, u) && alike(s1, l, s2, m),
            (Outcome::Stuck(l), Outcome::Stuck(m)) => alike(s1, l, s2, m),
            _ => false,
        },
    decreases a.len(), 0int,
{
    if a.len() > 0 {
        lemma_alike_behind(s1, a, s2, b, 0);
        if starts_with_product_op(a) {
            lemma_alike_behind(s1, a, s2, b, 1);
            let inside = a.drop_first();
            let other = b.drop_first();
            law_value_alike(s1, inside, s2, other);
            match (value_of(s1, inside), value_of(s2, other)) {
                (Outcome::Read(x, l), Outcome::Read(y, m)) => {
                    if l.len() < a.len() {
                        let t2 = t.push((a[0], x));
                        let u2 = u.push((b[0], y));
                        assert forall|i: int| 0 <= i < t2.len() implies (#[trigger] t2[i]).0.same(
                            u2[i].0,
                        ) && same_value(t2[i].1, u2[i].1) by {
                            if i < t.len() {
                                assert(t[i].0.same(u[i].0));
                            }
                        }
                        lemma_product_tail_alike(s1, h, t2, l, s2, g, u2, m);
                    }
                },
                _ => {},
            }
        }
    }
}

/// The same tokens, read as a sum, mean the same or get stuck at the same token.
pub proof fn law_sum_alike(s1: Seq<char>, a: Seq<Cursor>, s2: Seq<char>, b: Seq<Cursor>)
    requires
        alike(s1, a, s2, b),
    ensures
        match (sum_of(s1, a), sum_of(s2, b)) {
            (Outcome::Read(t, l), Outcome::Read(u, m)) => same_sum(t, u) && alike(s1, l, s2, m),
            (Outcome::Stuck(l), Outcome::Stuck(m)) => alike(s1, l, s2, m),
            _ => false,
        },
    decreases a.len(), 3int,
{
    law_product_alike(s1, a, s2, b);
    match (product_of(s1, a), product_of(s2, b)) {
        (Outcome::Read(h, l), Outcome::Read(g, m)) => {
            if l.len() < a.len() {
                lemma_sum_tail_alike(s1, h, Seq::empty(), l, s2, g, Seq::empty(), m);
            }
        },
        _ => {},
    }
}

proof fn lemma_sum_tail_alike(
    s1: Seq<char>,
    h: ProductTree,
    t: Seq<(Cursor, ProductTree)>,
    a: Seq<Cursor>,
    s2: Seq<char>,
    g: ProductTree,
    u: Seq<(Cursor, ProductTree)>,
    b: Seq<Cursor>,
)
    requires
        alike(s1, a, s2, b),
        same_product(h, g),
        t.len() == u.len(),
        forall|i: int|
            0 <= i < t.len() ==> (#[trigger] t[i]).0.same(u[i].0) && same_product(t[i].1, u[i].1),
    ensures
        match (sum_tail_of(s1, h, t, a), sum_tail_of(s2, g, u, b)) {
            (Outcome::Read(t, l), Outcome::Read(u, m)) => same_sum(t, u) && alike(s1, l, s2, m),
            (Outcome::Stuck(l), Outcome::Stuck(m)) => alike(s1, l, s2, m),
            _ => false,
        },
    decreases a.len(), 0int,
{
    if a.len() > 0 {
        lemma_alike_behind(s1, a, s2, b, 0);
        if starts_with_sum_op(a) {
            lemma_alike_behind(s1, a, s2, b, 1);
            let inside = a.drop_first();
            let other = b.drop_first();
            law_product_alike(s1, inside, s2, other);
            match (product_of(s1, inside), product_of(s2, other)) {
                (Outcome::Read(x, l), Outcome::Read(y, m)) => {
                    if l.len() < a.len() {
                        let t2 = t.push((spaced(a[0]), x));
                        let u2 = u.push((spaced(b[0]), y));
                        assert forall|i: int| 0 <= i < t2.len() implies (#[trigger] t2[i]).0.same(
                            u2[i].0,
                        ) && same_product(t2[i].1, u2[i].1) by {
                            if i < t.len() {
                                assert(t[i].0.same(u[i].0));
                            }
                        }
                        lemma_sum_tail_alike(s1, h, t2, l, s2, g, u2, m);
                    }
                },
                _ => {},
            }
        }
    }
}

/// One by one, the arguments mean the same.
pub open spec fn same_args(t: Seq<ArgTree>, u: Seq<ArgTree>) -> bool {
    &&& t.len() == u.len()
    &&& forall|i: int| 0 <= i < t.len() ==> same_sum(#[trigger] t[i].sum, u[i].sum)
}

proof fn lemma_args_alike(
    s1: Seq<char>,
    t: Seq<ArgTree>,
    a: Seq<Cursor>,
    s2: Seq<char>,
    u: Seq<ArgTree>,
    b: Seq<Cursor>,
    single: bool,
)
    requires
        alike(s1, a, s2, b),
        same_args(t, u),
    ensures
        match (args_of(s1, single, t, a), args_of(s2, single, u, b)) {
            (Outcome::Read(t, l), Outcome::Read(u, m)) => same_args(t, u) && alike(s1, l, s2, m),
            (Outcome::Stuck(l), Outcome::Stuck(m)) => alike(s1, l, s2, m),
            _ => false,
        },
    decreases a.len(), 4int,
{
    law_sum_alike(s1, a, s2, b);
    match (sum_of(s1, a), sum_of(s2, b)) {
        (Outcome::Read(x, l), Outcome::Read(y, m)) => {
            if l.len() > 0 {
                lemma_alike_behind(s1, l, s2, m, 0);
            }
            let with_comma = !single && starts_with(l, Kind::Comma);
            let comma1 = if with_comma { Some(l[0]) } else { None };
            let comma2 = if with_comma { Some(m[0]) } else { None };
            let t2 = t.push(ArgTree { sum: x, trailing_comma: comma1 });
            let u2 = u.push(ArgTree { sum: y, trailing_comma: comma2 });
            assert forall|i: int| 0 <= i < t2.len() implies same_sum(
                #[trigger] t2[i].sum,
                u2[i].sum,
            ) by {
                if i < t.len() {
                    assert(same_sum(t[i].sum, u[i].sum));
                }
            }
            if with_comma && l.len() <= a.len() {
                lemma_alike_behind(s1, l, s2, m, 1);
                lemma_args_alike(s1, t2, l.drop_first(), s2, u2, m.drop_first(), single);
            }
        },
        _ => {},
    }
}

/// Where two inputs hold the same tokens, however they are placed and spaced, reading them as
/// expressions gives expressions that mean the same, or gets stuck at the same token.
pub proof fn law_expression_alike(s1: Seq<char>, a: Seq<Cursor>, s2: Seq<char>, b: Seq<Cursor>)
    requires
        alike(s1, a, s2, b),
    ensures
        match (expression_of(s1, a), expression_of(s2, b)) {
            (Outcome::Read(t, l), Outcome::Read(u, m)) => same_expression(t, u) && alike(s1, l, s2, m),
            (Outcome::Stuck(l), Outcome::Stuck(m)) => alike(s1, l, s2, m),
            _ => false,
        },
    decreases a.len(), 0int,
{
    if a.len() > 0 {
        lemma_alike_behind(s1, a, s2, b, 0);
        if opens_math(s1, a[0]) {
            lemma_alike_behind(s1, a, s2, b, 1);
            let single = opens_calc(s1, a[0]);
            let inside = a.drop_first();
            let other = b.drop_first();
            lemma_args_alike(s1, Seq::empty(), inside, s2, Seq::empty(), other, single);
            let l = args_of(s1, single, Seq::empty(), inside).left();
            let m = args_of(s2, single, Seq::empty(), other).left();
            if l.len() > 0 {
                lemma_alike_behind(s1, l, s2, m, 0);
                lemma_alike_behind(s1, l, s2, m, 1);
            }
        }
    }
}

} // verus!
