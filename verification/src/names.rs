//! The names of the math functions.
use vstd::prelude::*;
use vstd::string::*;

verus! {

/// The words that name math functions, letter by letter.
pub open spec fn math_functions() -> Seq<Seq<char>> {
    seq![
        seq!['c', 'a', 'l', 'c'],
        seq!['m', 'i', 'n'],
        seq!['m', 'a', 'x'],
        seq!['c', 'l', 'a', 'm', 'p'],
        seq!['m', 'o', 'd'],
        seq!['r', 'e', 'm'],
    ]
}

/// A number of opening parentheses, one behind the other.
pub open spec fn parentheses(n: nat) -> Seq<char> {
    Seq::new(n, |i: int| '(')
}

/// Trimming takes off all the parentheses at the end of a word, and nothing of the word.
pub proof fn lemma_trimmed_word(word: Seq<char>, n: nat)
    requires
        word.len() > 0 ==> word.last() != '(',
    ensures
        trimmed(word + parentheses(n)) == word,
    decreases n,
{
    let name = word + parentheses(n);
    if n == 0 {
        assert(name =~= word);
    } else {
        lemma_trimmed_word(word, (n - 1) as nat);
        assert(name.drop_last() =~= word + parentheses((n - 1) as nat));
    }
}

/// Every name is a word that does not end in a parenthesis, with parentheses behind it.
pub proof fn lemma_word_of(name: Seq<char>) -> (n: nat)
    ensures
        name == trimmed(name) + parentheses(n),
        trimmed(name).len() > 0 ==> trimmed(name).last() != '(',
    decreases name.len(),
{
    if name.len() > 0 && name.last() == '(' {
        let n = lemma_word_of(name.drop_last());
        assert(parentheses(n + 1) =~= parentheses(n).push('('));
        assert(name =~= name.drop_last().push('('));
        assert(name =~= trimmed(name) + parentheses(n + 1));
        n + 1
    } else {
        assert(name =~= trimmed(name) + parentheses(0));
        0
    }
}

/// A word, with or without parentheses behind it, names a math function exactly if it is one of
/// the six that do, and names `calc()` exactly if it is that word. No other name does, such as
/// that of `env()` or `var()`, nor one of the six in capitals.
pub proof fn law_math_function_names(word: Seq<char>, n: nat)
    requires
        word.len() > 0 ==> word.last() != '(',
    ensures
        names_math_function(word) <==> {
            ||| word == seq!['c', 'a', 'l', 'c']
            ||| word == seq!['m', 'i', 'n']
            ||| word == seq!['m', 'a', 'x']
            ||| word == seq!['c', 'l', 'a', 'm', 'p']
            ||| word == seq!['m', 'o', 'd']
            ||| word == seq!['r', 'e', 'm']
        },
        names_math_function(word) <==> math_functions().contains(word),
        names_math_function(word.push('(')) <==> math_functions().contains(word),
        names_math_function(word + parentheses(n)) <==> math_functions().contains(word),
        names_calc(word + parentheses(n)) <==> word == seq!['c', 'a', 'l', 'c'],
        names_calc(word.push('(')) <==> word == seq!['c', 'a', 'l', 'c'],
        !names_math_function("env("@),
        !names_math_function("var("@),
        !names_math_function("CALC("@),
{
    lemma_words();
    lemma_trimmed_word(word, 0);
    lemma_trimmed_word(word, 1);
    lemma_trimmed_word(word, n);
    assert(word + parentheses(0) =~= word);
    assert(word + parentheses(1) =~= word.push('('));
    lemma_listed(word);
    reveal_strlit("env(");
    reveal_strlit("var(");
    reveal_strlit("CALC(");
    lemma_trimmed_word(seq!['e', 'n', 'v'], 1);
    lemma_trimmed_word(seq!['v', 'a', 'r'], 1);
    lemma_trimmed_word(seq!['C', 'A', 'L', 'C'], 1);
    assert("env("@ =~= seq!['e', 'n', 'v'] + parentheses(1));
    assert("var("@ =~= seq!['v', 'a', 'r'] + parentheses(1));
    assert("CALC("@ =~= seq!['C', 'A', 'L', 'C'] + parentheses(1));
    assert(seq!['e', 'n', 'v'][0] == 'e');
    assert(seq!['v', 'a', 'r'][0] == 'v');
    assert(seq!['C', 'A', 'L', 'C'][0] == 'C');
}

proof fn lemma_words()
    ensures
        "calc"@ == seq!['c', 'a', 'l', 'c'],
        "min"@ == seq!['m', 'i', 'n'],
        "max"@ == seq!['m', 'a', 'x'],
        "clamp"@ == seq!['c', 'l', 'a', 'm', 'p'],
        "mod"@ == seq!['m', 'o', 'd'],
        "rem"@ == seq!['r', 'e', 'm'],
{
    reveal_strlit("calc");
    reveal_strlit("min");
    reveal_strlit("max");
    reveal_strlit("clamp");
    reveal_strlit("mod");
    reveal_strlit("rem");
    assert("calc"@ =~= seq!['c', 'a', 'l', 'c']);
    assert("min"@ =~= seq!['m', 'i', 'n']);
    assert("max"@ =~= seq!['m', 'a', 'x']);
    assert("clamp"@ =~= seq!['c', 'l', 'a', 'm', 'p']);
    assert("mod"@ =~= seq!['m', 'o', 'd']);
    assert("rem"@ =~= seq!['r', 'e', 'm']);
}

proof fn lemma_listed(word: Seq<char>)
    ensures
        math_functions().contains(word) <==> {
            ||| word == seq!['c', 'a', 'l', 'c']
            ||| word == seq!['m', 'i', 'n']
            ||| word == seq!['m', 'a', 'x']
            ||| word == seq!['c', 'l', 'a', 'm', 'p']
            ||| word == seq!['m', 'o', 'd']
            ||| word == seq!['r', 'e', 'm']
        },
{
    let list = math_functions();
    assert(list[0] == seq!['c', 'a', 'l', 'c']);
    assert(list[1] == seq!['m', 'i', 'n']);
    assert(list[2] == seq!['m', 'a', 'x']);
    assert(list[3] == seq!['c', 'l', 'a', 'm', 'p']);
    assert(list[4] == seq!['m', 'o', 'd']);
    assert(list[5] == seq!['r', 'e', 'm']);
}

/// The name without the opening parentheses at its end.
pub open spec fn trimmed(name: Seq<char>) -> Seq<char>
    decreases name.len(),
{
    if name.len() > 0 && name.last() == '(' {
        trimmed(name.drop_last())
    } else {
        name
    }
}

/// Whether the name, once trimmed, is that of a math function.
pub open spec fn names_math_function(name: Seq<char>) -> bool {
    let word = trimmed(name);
    ||| word == "calc"@
    ||| word == "min"@
    ||| word == "max"@
    ||| word == "clamp"@
    ||| word == "mod"@
    ||| word == "rem"@
}

/// Whether the name, once trimmed, is that of the math function that takes a single sum.
pub open spec fn names_calc(name: Seq<char>) -> bool {
    trimmed(name) == "calc"@
}

/// How many characters are left of a name once it is trimmed.
fn trimmed_len(name: &str) -> (n: usize)
    ensures
        n <= name@.len(),
        name@.take(n as int) == trimmed(name@),
{
    let mut n: usize = name.unicode_len();
    assert(name@.take(n as int) =~= name@);
    while n > 0 && name.get_char(n - 1) == '('
        invariant
            n <= name@.len(),
            trimmed(name@.take(n as int)) == trimmed(name@),
        decreases n,
    {
        assert(name@.take(n as int).drop_last() =~= name@.take(n - 1));
        n = n - 1;
    }
    n
}

/// Whether the first `n` characters of the name spell the word.
fn spells(name: &str, n: usize, word: &str) -> (b: bool)
    requires
        n <= name@.len(),
    ensures
        b == (name@.take(n as int) == word@),
{
    if n != word.unicode_len() {
        return false;
    }
    let mut i: usize = 0;
    while i < n
        invariant
            i <= n <= name@.len(),
            n == word@.len(),
            forall|j: int| 0 <= j < i ==> name@[j] == word@[j],
        decreases n - i,
    {
        if name.get_char(i) != word.get_char(i) {
            assert(name@.take(n as int)[i as int] != word@[i as int]);
            return false;
        }
        i = i + 1;
    }
    assert(name@.take(n as int) =~= word@);
    true
}

/// Whether the name is that of one of the math functions of
/// <https://www.w3.org/TR/css-values-4/#math> that are read as calculations. A name may end in
/// the parenthesis that opens the arguments.
///
/// `calc()` takes a single `<calc-sum>`. The others take `<calc-sum>` arguments set apart by
/// commas; what each of them asks of its arguments beyond that is left open.
pub fn is_math_function(name: &str) -> (b: bool)
    ensures
        b == names_math_function(name@),
        forall|word: Seq<char>, k: nat|
            #![trigger word + parentheses(k)]
            name@ == word + parentheses(k) && (word.len() > 0 ==> word.last() != '(') ==> b
                == math_functions().contains(word),
{
    let n: usize = trimmed_len(name);
    proof {
        assert forall|word: Seq<char>, k: nat|
            #![trigger word + parentheses(k)]
            name@ == word + parentheses(k) && (word.len() > 0 ==> word.last()
                != '(') implies names_math_function(name@) == math_functions().contains(word) by {
            law_math_function_names(word, k);
        }
    }
    spells(name, n, "calc") || spells(name, n, "min") || spells(name, n, "max") || spells(
        name,
        n,
        "clamp",
    ) || spells(name, n, "mod") || spells(name, n, "rem")
}

/// Whether the name is that of `calc()`, which takes a single `<calc-sum>`.
pub fn is_calc(name: &str) -> (b: bool)
    ensures
        b == names_calc(name@),
{
    let n: usize = trimmed_len(name);
    spells(name, n, "calc")
}

} // verus!
