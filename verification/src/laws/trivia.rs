//! Whitespace and comments are passed over, and nothing else is.
use vstd::prelude::*;

use crate::cursor::Cursor;
use crate::grammar::{expression_of, Outcome};
use crate::laws::law_lossless_tokens;
use crate::parser::significant;
use crate::token::Kind;
use crate::tree::expression_cursors;

verus! {

/// Cursors are looked at one by one: each is kept, in its place among the others, unless it is
/// whitespace or a comment.
pub proof fn law_trivia_only(a: Seq<Cursor>, b: Seq<Cursor>, c: Cursor)
    ensures
        significant(a + b) == significant(a) + significant(b),
        c.token.kind == Kind::Whitespace || c.token.kind == Kind::Comment ==> significant(seq![c])
            == Seq::<Cursor>::empty(),
        c.token.kind != Kind::Whitespace && c.token.kind != Kind::Comment ==> significant(seq![c])
            == seq![c],
        significant(Seq::empty()) == Seq::<Cursor>::empty(),
{
    let keep = |x: Cursor| !x.kind().spec_is_trivia();
    Seq::filter_distributes_over_add(a, b, keep);
    reveal_with_fuel(Seq::filter, 2);
    assert(seq![c].drop_last() =~= Seq::<Cursor>::empty());
    assert(significant(seq![c]) =~= if keep(c) {
        seq![c]
    } else {
        Seq::empty()
    });
    assert(significant(Seq::empty()) =~= Seq::<Cursor>::empty());
}

/// What is left without whitespace and comments.
pub proof fn lemma_significant_named(cursors: Seq<Cursor>)
    ensures
        significant(cursors) == cursors.filter(
            |c: Cursor| c.token.kind != Kind::Whitespace && c.token.kind != Kind::Comment,
        ),
{
    let keep = |c: Cursor| !c.kind().spec_is_trivia();
    let named = |c: Cursor| c.token.kind != Kind::Whitespace && c.token.kind != Kind::Comment;
    assert(keep =~= named);
}

/// Every cursor that is neither whitespace nor a comment is there to be read, behind exactly those
/// that stand before it.
pub proof fn law_kept_in_place(cursors: Seq<Cursor>, i: int)
    requires
        0 <= i < cursors.len(),
        cursors[i].token.kind != Kind::Whitespace,
        cursors[i].token.kind != Kind::Comment,
    ensures
        significant(cursors.take(i)).len() < significant(cursors).len(),
        significant(cursors)[significant(cursors.take(i)).len() as int] == cursors[i],
        significant(cursors).take(significant(cursors.take(i)).len() as int) == significant(
            cursors.take(i),
        ),
{
    let front = cursors.take(i);
    let one = seq![cursors[i]];
    let back = cursors.skip(i + 1);
    assert(cursors =~= front + (one + back));
    law_trivia_only(front, one + back, cursors[i]);
    law_trivia_only(one, back, cursors[i]);
    assert(significant(cursors) == significant(front) + (one + significant(back)));
    assert(significant(cursors).take(significant(front).len() as int) =~= significant(front));
}

/// A place in the cursors behind which the given number of them, whitespace and comments not
/// counted, is passed.
proof fn lemma_place_behind(cursors: Seq<Cursor>, n: int) -> (k: int)
    requires
        0 <= n <= significant(cursors).len(),
    ensures
        0 <= k <= cursors.len(),
        significant(cursors.take(k)) == significant(cursors).take(n),
        significant(cursors.skip(k)) == significant(cursors).skip(n),
    decreases cursors.len(),
{
    let all = significant(cursors);
    if n == all.len() {
        assert(cursors.take(cursors.len() as int) =~= cursors);
        assert(cursors.skip(cursors.len() as int) =~= Seq::<Cursor>::empty());
        law_trivia_only(cursors, cursors, arbitrary());
        assert(all.take(n) =~= all);
        assert(all.skip(n) =~= Seq::<Cursor>::empty());
        cursors.len() as int
    } else {
        assert(cursors.len() > 0) by {
            if cursors.len() == 0 {
                assert(cursors =~= Seq::<Cursor>::empty());
                law_trivia_only(cursors, cursors, arbitrary());
            }
        }
        let front = cursors.drop_last();
        let one = seq![cursors.last()];
        assert(cursors =~= front + one);
        law_trivia_only(front, one, cursors.last());
        let k = lemma_place_behind(front, n);
        assert(cursors.take(k) =~= front.take(k));
        assert(all.take(n) =~= significant(front).take(n));
        assert(cursors.skip(k) =~= front.skip(k) + one);
        law_trivia_only(front.skip(k), one, cursors.last());
        assert(all.skip(n) =~= significant(front).skip(n) + significant(one));
        k
    }
}

/// Nothing of the input is lost: an expression is written with all the cursors of the front part of
/// the input but its whitespace and comments, each with its place, its kind, its character and its
/// meaning, and what is left is all of the rest of the input but its whitespace and comments.
pub proof fn law_input_kept(source: Seq<char>, input: Seq<Cursor>)
    ensures
        match expression_of(source, significant(input)) {
            Outcome::Read(t, left) => exists|k: int|
                #![trigger input.take(k)]
                {
                    let part = input.take(k).filter(
                        |c: Cursor|
                            c.token.kind != Kind::Whitespace && c.token.kind != Kind::Comment,
                    );
                    let written = expression_cursors(t);
                    &&& 0 <= k <= input.len()
                    &&& written.len() == part.len()
                    &&& forall|i: int|
                        #![trigger written[i]]
                        0 <= i < written.len() ==> {
                            &&& written[i].span == part[i].span
                            &&& written[i].token.kind == part[i].token.kind
                            &&& written[i].token.delim == part[i].token.delim
                            &&& written[i].token.meaning == part[i].token.meaning
                        }
                    &&& left == input.skip(k).filter(
                        |c: Cursor|
                            c.token.kind != Kind::Whitespace && c.token.kind != Kind::Comment,
                    )
                },
            Outcome::Stuck(_) => true,
        },
{
    let cursors = significant(input);
    law_lossless_tokens(source, cursors);
    if let Outcome::Read(t, left) = expression_of(source, cursors) {
        let n = cursors.len() - left.len();
        let k = lemma_place_behind(input, n);
        lemma_significant_named(input.take(k));
        lemma_significant_named(input.skip(k));
        let part = significant(input.take(k));
        let written = expression_cursors(t);
        assert forall|i: int| #![trigger written[i]] 0 <= i < written.len() implies {
            &&& written[i].span == part[i].span
            &&& written[i].token.kind == part[i].token.kind
            &&& written[i].token.delim == part[i].token.delim
            &&& written[i].token.meaning == part[i].token.meaning
        } by {
            assert(part[i] == cursors[i]);
        }
        assert(input.take(k).len() == k);
    }
}

} // verus!
