//! Which functions are read as calculations: it is the name in the source that decides.
use vstd::prelude::*;
use vstd::utf8::*;

use crate::cursor::{readable, text_at, Cursor, Span};
use crate::grammar::{expression_of, opens_calc, opens_math, value_of, Outcome};
use crate::names::{law_math_function_names, math_functions, parentheses};
use crate::token::Kind;
use crate::tree::ExpressionTree;

verus! {

/// Two texts, one behind the other, are encoded one behind the other, and meet at a boundary
/// between characters.
proof fn lemma_encoded_joined(a: Seq<char>, b: Seq<char>)
    ensures
        encode_utf8(a + b) == encode_utf8(a) + encode_utf8(b),
        is_char_boundary(encode_utf8(a + b), encode_utf8(a).len() as int),
    decreases a.len(),
{
    let bytes = encode_utf8(a + b);
    encode_utf8_valid_utf8(a + b);
    if a.len() == 0 {
        assert(a + b =~= b);
        assert(encode_utf8(a) + encode_utf8(b) =~= encode_utf8(b));
    } else {
        let others = a.drop_first();
        assert((a + b).drop_first() =~= others + b);
        lemma_encoded_joined(others, b);
        let first = encode_scalar(a[0] as u32);
        assert(bytes =~= encode_utf8(a) + encode_utf8(b));
        encode_utf8_first_scalar(a + b);
        assert(pop_first_scalar(bytes) =~= encode_utf8(others + b));
    }
}

/// What a cursor was read from is the stretch of text that its span marks out, in bytes.
pub proof fn law_text_of_span(before: Seq<char>, word: Seq<char>, after: Seq<char>, span: Span)
    requires
        span.start == encode_utf8(before).len(),
        span.end == encode_utf8(before).len() + encode_utf8(word).len(),
    ensures
        readable(before + word + after, span),
        text_at(before + word + after, span) == word,
{
    let source = before + word + after;
    lemma_encoded_joined(before, word);
    lemma_encoded_joined(before + word, after);
    lemma_encoded_joined(before, word + after);
    assert(before + (word + after) =~= source);
    let bytes = encode_utf8(source);
    assert(bytes.subrange(span.start as int, span.end as int) =~= encode_utf8(word));
    encode_utf8_decode_utf8(word);
}

/// A cursor opens a calculation exactly if it is a function whose name, up to its parentheses, is
/// one of the six words; it opens a `calc()` exactly if that word is `calc`.
pub proof fn law_name_decides(source: Seq<char>, c: Cursor, word: Seq<char>, n: nat)
    requires
        word.len() > 0 ==> word.last() != '(',
        text_at(source, c.span) == word + parentheses(n),
    ensures
        opens_math(source, c) <==> c.token.kind == Kind::Function && math_functions().contains(word),
        opens_calc(source, c) <==> c.token.kind == Kind::Function && word == seq![
            'c',
            'a',
            'l',
            'c',
        ],
{
    law_math_function_names(word, n);
}

/// A function with one of the six names is only ever read as a calculation; one with any other
/// name is only ever kept token by token, and is no expression.
pub proof fn law_sort_of_function(
    source: Seq<char>,
    cursors: Seq<Cursor>,
    word: Seq<char>,
    n: nat,
)
    requires
        cursors.len() > 0,
        cursors[0].token.kind == Kind::Function,
        word.len() > 0 ==> word.last() != '(',
        text_at(source, cursors[0].span) == word + parentheses(n),
    ensures
        math_functions().contains(word) ==> match value_of(source, cursors) {
            Outcome::Read(v, left) => v is Calc && expression_of(source, cursors) == Outcome::Read(
                v->Calc_0,
                left,
            ),
            Outcome::Stuck(left) => expression_of(source, cursors) == Outcome::<
                ExpressionTree,
            >::Stuck(left),
        },
        !math_functions().contains(word) ==> {
            &&& expression_of(source, cursors) == Outcome::<ExpressionTree>::Stuck(cursors)
            &&& match value_of(source, cursors) {
                Outcome::Read(v, left) => v is Function && v->Function_0.name == cursors[0],
                Outcome::Stuck(_) => true,
            }
        },
{
    law_name_decides(source, cursors[0], word, n);
}

} // verus!
