//! Which tree a node stands for: its parts are those of the node, in the same places.
use vstd::prelude::*;

use crate::block::FunctionBlock;
use crate::calc::{
    CalcArg, CalcExpression, CalcParens, CalcProduct, CalcProductOp, CalcSum, CalcSumOp, CalcValue,
};
use crate::tree::ValueTree;

verus! {

/// The tree of a node has the cursors of the node, each in its own place, and the trees of the
/// nodes inside it.
pub proof fn law_nodes_as_trees(
    e: CalcExpression,
    a: CalcArg,
    s: CalcSum,
    p: CalcProduct,
    q: CalcParens,
    b: FunctionBlock,
    plus: CalcSumOp,
    times: CalcProductOp,
)
    ensures
        e@.name == e.name.0 && e@.args == e.args@ && e@.close == e.close.0,
        a@.sum == a.sum@,
        match a.trailing_comma {
            Some(c) => a@.trailing_comma == Some(c.0),
            None => a@.trailing_comma is None,
        },
        s@.head == s.head@ && s@.tail == s.tail@,
        p@.head == p.head@ && p@.tail == p.tail@,
        q@.open == q.open.0 && *q@.sum == (*q.sum)@ && q@.close == q.close.0,
        b@.name == b.name.0 && b@.params == b.params@ && b@.close == b.close.0,
        plus@ == plus.0.0,
        times@ == times.0.0,
{
}

/// A value of one sort stands for a tree of that sort.
pub proof fn law_values_as_trees(v: CalcValue)
    ensures
        match v {
            CalcValue::Number(n) => v@ == ValueTree::Number(n.0),
            CalcValue::Dimension(d) => v@ == ValueTree::Dimension(d.0),
            CalcValue::Ident(i) => v@ == ValueTree::Ident(i.0),
            CalcValue::Calc(e) => v@ == ValueTree::Calc((*e)@),
            CalcValue::Function(b) => v@ == ValueTree::Function(b@),
            CalcValue::Parens(p) => v@ == ValueTree::Parens(p@),
        },
{
}

} // verus!
