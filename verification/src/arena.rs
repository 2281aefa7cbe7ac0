//! The lists inside a calculation. They live in an arena, as `bumpalo::collections::Vec`.
//!
//! A list holds nodes that hold lists again, so each sort of list is a type of its own around the
//! arena's vector. What a list holds is known through one name for each sort (`args_held`,
//! `sum_terms_held`, `product_factors_held`), which gives the trees of the nodes in order. The
//! functions that reach into the arena's vector are believed, not proved, and stand at the top of
//! each section; what they say rests on the source of that crate. Running out of memory, or
//! of sizes that can be addressed, is left aside, as it is for every other allocation.
use bumpalo::collections::Vec as BumpVec;
use bumpalo::Bump;
use vstd::prelude::*;

use crate::calc::{CalcArg, CalcProduct, CalcProductOp, CalcSumOp, CalcValue};
use crate::cursor::Cursor;
use crate::tree::{ArgTree, ProductTree, ValueTree};

verus! {

// ---- arguments ----
/// The arguments of a math function.
#[derive(Debug, PartialEq, Eq, PartialOrd, Ord, Hash)]
#[verifier::external_body]
pub struct CalcArgs<'a> {
    items: BumpVec<'a, CalcArg<'a>>,
}

/// The trees of the nodes that the list holds, in order.
pub uninterp spec fn args_held(list: CalcArgs<'_>) -> Seq<ArgTree>;

/// `bumpalo::collections::Vec::new_in`: a list in the given arena that holds nothing.
#[verifier::external_body]
fn args_new_in<'a>(bump: &'a Bump) -> (list: CalcArgs<'a>)
    ensures
        args_held(list) == Seq::<ArgTree>::empty(),
{
    CalcArgs { items: BumpVec::new_in(bump) }
}

/// `bumpalo::collections::Vec::push`: the list holds one node more, behind the others.
#[verifier::external_body]
fn args_push<'a>(list: &mut CalcArgs<'a>, arg: CalcArg<'a>)
    requires
        args_held(*old(list)).len() < usize::MAX,
    ensures
        args_held(*final(list)) == args_held(*old(list)).push(arg@),
{
    list.items.push(arg);
}

/// `bumpalo::collections::Vec::len`: how many nodes the list holds.
#[verifier::external_body]
fn args_len(list: &CalcArgs<'_>) -> (n: usize)
    ensures
        n == args_held(*list).len(),
{
    list.items.len()
}

/// `bumpalo::collections::Vec::index`: the node at one place of the list.
#[verifier::external_body]
fn args_index<'l, 'a>(list: &'l CalcArgs<'a>, i: usize) -> (item: &'l CalcArg<'a>)
    requires
        i < args_held(*list).len(),
    ensures
        item@ == args_held(*list)[i as int],
{
    &list.items[i]
}

/// `bumpalo::collections::Vec::bump`: the arena that the list lives in. Nothing is claimed of it.
#[verifier::external_body]
fn args_bump<'a>(list: &CalcArgs<'a>) -> &'a Bump {
    list.items.bump()
}

impl<'a> View for CalcArgs<'a> {
    type V = Seq<ArgTree>;

    open spec fn view(&self) -> Seq<ArgTree> {
        args_held(*self)
    }
}

impl<'a> Clone for CalcArgs<'a> {
    /// The same nodes once more, in the same arena.
    fn clone(&self) -> (list: Self)
        ensures
            list@ == self@,
        decreases self@,
    {
        let n: usize = self.len();
        let mut list = CalcArgs::new_in(args_bump(self));
        let mut i: usize = 0;
        while i < n
            invariant
                i <= n == self@.len(),
                list@ == self@.take(i as int),
            decreases n - i,
        {
            if let Some(item) = self.get(i) {
                assert(decreases_to!(self@ => self@[i as int]));
                list.push(item.clone());
            }
            assert(self@.take(i + 1) =~= self@.take(i as int).push(self@[i as int]));
            i = i + 1;
        }
        assert(self@.take(n as int) =~= self@);
        list
    }
}

impl<'a> CalcArgs<'a> {
    /// A list in the given arena that holds nothing.
    pub fn new_in(bump: &'a Bump) -> (list: Self)
        ensures
            list@ == Seq::<ArgTree>::empty(),
    {
        args_new_in(bump)
    }

    /// Puts one node behind the others.
    pub fn push(&mut self, arg: CalcArg<'a>)
        requires
            old(self)@.len() < usize::MAX,
        ensures
            final(self)@ == old(self)@.push(arg@),
    {
        args_push(self, arg);
    }

    /// How many nodes the list holds.
    pub fn len(&self) -> (n: usize)
        ensures
            n == self@.len(),
    {
        args_len(self)
    }

    /// The node at one place, or nothing behind the last.
    pub fn get(&self, i: usize) -> (item: Option<&CalcArg<'a>>)
        ensures
            match item {
                Some(item) => i < self@.len() && item@ == self@[i as int],
                None => i >= self@.len(),
            },
    {
        if i < args_len(self) {
            Some(args_index(self, i))
        } else {
            None
        }
    }
}

// ---- what follows the first product of a sum ----
/// The operators and products that follow the first product of a sum.
#[derive(Debug, PartialEq, Eq, PartialOrd, Ord, Hash)]
#[verifier::external_body]
pub struct CalcSumTail<'a> {
    items: BumpVec<'a, (CalcSumOp, CalcProduct<'a>)>,
}

/// The trees of the nodes that the list holds, in order.
pub uninterp spec fn sum_terms_held(list: CalcSumTail<'_>) -> Seq<(Cursor, ProductTree)>;

/// `bumpalo::collections::Vec::new_in`: a list in the given arena that holds nothing.
#[verifier::external_body]
fn sum_terms_new_in<'a>(bump: &'a Bump) -> (list: CalcSumTail<'a>)
    ensures
        sum_terms_held(list) == Seq::<(Cursor, ProductTree)>::empty(),
{
    CalcSumTail { items: BumpVec::new_in(bump) }
}

/// `bumpalo::collections::Vec::push`: the list holds one node more, behind the others.
#[verifier::external_body]
fn sum_terms_push<'a>(list: &mut CalcSumTail<'a>, op: CalcSumOp, rhs: CalcProduct<'a>)
    requires
        sum_terms_held(*old(list)).len() < usize::MAX,
    ensures
        sum_terms_held(*final(list)) == sum_terms_held(*old(list)).push((op@, rhs@)),
{
    list.items.push((op, rhs));
}

/// `bumpalo::collections::Vec::len`: how many nodes the list holds.
#[verifier::external_body]
fn sum_terms_len(list: &CalcSumTail<'_>) -> (n: usize)
    ensures
        n == sum_terms_held(*list).len(),
{
    list.items.len()
}

/// `bumpalo::collections::Vec::index`: the node at one place of the list.
#[verifier::external_body]
fn sum_terms_index<'l, 'a>(list: &'l CalcSumTail<'a>, i: usize) -> (item: &'l (CalcSumOp, CalcProduct<'a>))
    requires
        i < sum_terms_held(*list).len(),
    ensures
        (item.0@, item.1@) == sum_terms_held(*list)[i as int],
{
    &list.items[i]
}

/// `bumpalo::collections::Vec::bump`: the arena that the list lives in. Nothing is claimed of it.
#[verifier::external_body]
fn sum_terms_bump<'a>(list: &CalcSumTail<'a>) -> &'a Bump {
    list.items.bump()
}

impl<'a> View for CalcSumTail<'a> {
    type V = Seq<(Cursor, ProductTree)>;

    open spec fn view(&self) -> Seq<(Cursor, ProductTree)> {
        sum_terms_held(*self)
    }
}

impl<'a> Clone for CalcSumTail<'a> {
    /// The same nodes once more, in the same arena.
    fn clone(&self) -> (list: Self)
        ensures
            list@ == self@,
        decreases self@,
    {
        let n: usize = self.len();
        let mut list = CalcSumTail::new_in(sum_terms_bump(self));
        let mut i: usize = 0;
        while i < n
            invariant
                i <= n == self@.len(),
                list@ == self@.take(i as int),
            decreases n - i,
        {
            if let Some(item) = self.get(i) {
                assert(decreases_to!(self@ => self@[i as int].1));
                list.push(item.0, item.1.clone());
            }
            assert(self@.take(i + 1) =~= self@.take(i as int).push(self@[i as int]));
            i = i + 1;
        }
        assert(self@.take(n as int) =~= self@);
        list
    }
}

impl<'a> CalcSumTail<'a> {
    /// A list in the given arena that holds nothing.
    pub fn new_in(bump: &'a Bump) -> (list: Self)
        ensures
            list@ == Seq::<(Cursor, ProductTree)>::empty(),
    {
        sum_terms_new_in(bump)
    }

    /// Puts one node behind the others.
    pub fn push(&mut self, op: CalcSumOp, rhs: CalcProduct<'a>)
        requires
            old(self)@.len() < usize::MAX,
        ensures
            final(self)@ == old(self)@.push((op@, rhs@)),
    {
        sum_terms_push(self, op, rhs);
    }

    /// How many nodes the list holds.
    pub fn len(&self) -> (n: usize)
        ensures
            n == self@.len(),
    {
        sum_terms_len(self)
    }

    /// The node at one place, or nothing behind the last.
    pub fn get(&self, i: usize) -> (item: Option<&(CalcSumOp, CalcProduct<'a>)>)
        ensures
            match item {
                Some(item) => i < self@.len() && (item.0@, item.1@) == self@[i as int],
                None => i >= self@.len(),
            },
    {
        if i < sum_terms_len(self) {
            Some(sum_terms_index(self, i))
        } else {
            None
        }
    }
}

// ---- what follows the first value of a product ----
/// The operators and values that follow the first value of a product.
#[derive(Debug, PartialEq, Eq, PartialOrd, Ord, Hash)]
#[verifier::external_body]
pub struct CalcProductTail<'a> {
    items: BumpVec<'a, (CalcProductOp, CalcValue<'a>)>,
}

/// The trees of the nodes that the list holds, in order.
pub uninterp spec fn product_factors_held(list: CalcProductTail<'_>) -> Seq<(Cursor, ValueTree)>;

/// `bumpalo::collections::Vec::new_in`: a list in the given arena that holds nothing.
#[verifier::external_body]
fn product_factors_new_in<'a>(bump: &'a Bump) -> (list: CalcProductTail<'a>)
    ensures
        product_factors_held(list) == Seq::<(Cursor, ValueTree)>::empty(),
{
    CalcProductTail { items: BumpVec::new_in(bump) }
}

/// `bumpalo::collections::Vec::push`: the list holds one node more, behind the others.
#[verifier::external_body]
fn product_factors_push<'a>(list: &mut CalcProductTail<'a>, op: CalcProductOp, rhs: CalcValue<'a>)
    requires
        product_factors_held(*old(list)).len() < usize::MAX,
    ensures
        product_factors_held(*final(list)) == product_factors_held(*old(list)).push((op@, rhs@)),
{
    list.items.push((op, rhs));
}

/// `bumpalo::collections::Vec::len`: how many nodes the list holds.
#[verifier::external_body]
fn product_factors_len(list: &CalcProductTail<'_>) -> (n: usize)
    ensures
        n == product_factors_held(*list).len(),
{
    list.items.len()
}

/// `bumpalo::collections::Vec::index`: the node at one place of the list.
#[verifier::external_body]
fn product_factors_index<'l, 'a>(list: &'l CalcProductTail<'a>, i: usize) -> (item: &'l (CalcProductOp, CalcValue<'a>))
    requires
        i < product_factors_held(*list).len(),
    ensures
        (item.0@, item.1@) == product_factors_held(*list)[i as int],
{
    &list.items[i]
}

/// `bumpalo::collections::Vec::bump`: the arena that the list lives in. Nothing is claimed of it.
#[verifier::external_body]
fn product_factors_bump<'a>(list: &CalcProductTail<'a>) -> &'a Bump {
    list.items.bump()
}

impl<'a> View for CalcProductTail<'a> {
    type V = Seq<(Cursor, ValueTree)>;

    open spec fn view(&self) -> Seq<(Cursor, ValueTree)> {
        product_factors_held(*self)
    }
}

impl<'a> Clone for CalcProductTail<'a> {
    /// The same nodes once more, in the same arena.
    fn clone(&self) -> (list: Self)
        ensures
            list@ == self@,
        decreases self@,
    {
        let n: usize = self.len();
        let mut list = CalcProductTail::new_in(product_factors_bump(self));
        let mut i: usize = 0;
        while i < n
            invariant
                i <= n == self@.len(),
                list@ == self@.take(i as int),
            decreases n - i,
        {
            if let Some(item) = self.get(i) {
                assert(decreases_to!(self@ => self@[i as int].1));
                list.push(item.0, item.1.clone());
            }
            assert(self@.take(i + 1) =~= self@.take(i as int).push(self@[i as int]));
            i = i + 1;
        }
        assert(self@.take(n as int) =~= self@);
        list
    }
}

impl<'a> CalcProductTail<'a> {
    /// A list in the given arena that holds nothing.
    pub fn new_in(bump: &'a Bump) -> (list: Self)
        ensures
            list@ == Seq::<(Cursor, ValueTree)>::empty(),
    {
        product_factors_new_in(bump)
    }

    /// Puts one node behind the others.
    pub fn push(&mut self, op: CalcProductOp, rhs: CalcValue<'a>)
        requires
            old(self)@.len() < usize::MAX,
        ensures
            final(self)@ == old(self)@.push((op@, rhs@)),
    {
        product_factors_push(self, op, rhs);
    }

    /// How many nodes the list holds.
    pub fn len(&self) -> (n: usize)
        ensures
            n == self@.len(),
    {
        product_factors_len(self)
    }

    /// The node at one place, or nothing behind the last.
    pub fn get(&self, i: usize) -> (item: Option<&(CalcProductOp, CalcValue<'a>)>)
        ensures
            match item {
                Some(item) => i < self@.len() && (item.0@, item.1@) == self@[i as int],
                None => i >= self@.len(),
            },
    {
        if i < product_factors_len(self) {
            Some(product_factors_index(self, i))
        } else {
            None
        }
    }
}

} // verus!
