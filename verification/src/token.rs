//! Token kinds, sets of kinds, whitespace rules and tokens.
use vstd::prelude::*;

verus! {

/// What sort of token the tokenizer recognised.
#[derive(Debug, Clone, Copy, PartialEq, Eq, PartialOrd, Ord, Hash, Structural)]
pub enum Kind {
    Eof,
    Whitespace,
    Comment,
    CdcOrCdo,
    Number,
    Dimension,
    BadString,
    BadUrl,
    Ident,
    Function,
    AtKeyword,
    Hash,
    String,
    Url,
    Delim,
    Colon,
    Semicolon,
    Comma,
    LeftSquare,
    RightSquare,
    LeftParen,
    RightParen,
    LeftCurly,
    RightCurly,
}

impl Kind {
    /// The position of a kind among all kinds. Distinct kinds have distinct positions.
    pub open spec fn position(self) -> u32 {
        match self {
            Kind::Eof => 0,
            Kind::Whitespace => 1,
            Kind::Comment => 2,
            Kind::CdcOrCdo => 3,
            Kind::Number => 4,
            Kind::Dimension => 5,
            Kind::BadString => 6,
            Kind::BadUrl => 7,
            Kind::Ident => 8,
            Kind::Function => 9,
            Kind::AtKeyword => 10,
            Kind::Hash => 11,
            Kind::String => 12,
            Kind::Url => 13,
            Kind::Delim => 14,
            Kind::Colon => 15,
            Kind::Semicolon => 16,
            Kind::Comma => 17,
            Kind::LeftSquare => 18,
            Kind::RightSquare => 19,
            Kind::LeftParen => 20,
            Kind::RightParen => 21,
            Kind::LeftCurly => 22,
            Kind::RightCurly => 23,
        }
    }

    /// Whitespace and comments: kinds that never carry meaning of their own.
    pub open spec fn spec_is_trivia(self) -> bool {
        self == Kind::Whitespace || self == Kind::Comment
    }

    fn index(self) -> (i: u32)
        ensures
            i == self.position(),
            i < 24,
    {
        match self {
            Kind::Eof => 0,
            Kind::Whitespace => 1,
            Kind::Comment => 2,
            Kind::CdcOrCdo => 3,
            Kind::Number => 4,
            Kind::Dimension => 5,
            Kind::BadString => 6,
            Kind::BadUrl => 7,
            Kind::Ident => 8,
            Kind::Function => 9,
            Kind::AtKeyword => 10,
            Kind::Hash => 11,
            Kind::String => 12,
            Kind::Url => 13,
            Kind::Delim => 14,
            Kind::Colon => 15,
            Kind::Semicolon => 16,
            Kind::Comma => 17,
            Kind::LeftSquare => 18,
            Kind::RightSquare => 19,
            Kind::LeftParen => 20,
            Kind::RightParen => 21,
            Kind::LeftCurly => 22,
            Kind::RightCurly => 23,
        }
    }

    /// Whether tokens of this kind are passed over between meaningful tokens.
    pub fn is_trivia(self) -> (b: bool)
        ensures
            b <==> self == Kind::Whitespace || self == Kind::Comment,
            b == self.spec_is_trivia(),
    {
        self == Kind::Whitespace || self == Kind::Comment
    }
}

/// A set of kinds, one bit for each kind.
#[derive(Debug, Clone, Copy, PartialEq, Eq, Hash)]
pub struct KindSet {
    bits: u32,
}

impl View for KindSet {
    type V = Set<Kind>;

    closed spec fn view(&self) -> Set<Kind> {
        Set::new(|k: Kind| self.bits & (1u32 << k.position()) != 0)
    }
}

proof fn lemma_set_bit(bits: u32, i: u32, j: u32)
    requires
        i < 24,
        j < 24,
    ensures
        (bits | (1u32 << i)) & (1u32 << j) != 0 <==> i == j || bits & (1u32 << j) != 0,
{
    assert((bits | (1u32 << i)) & (1u32 << j) != 0 <==> i == j || bits & (1u32 << j) != 0)
        by (bit_vector)
        requires
            i < 24,
            j < 24,
    ;
}

impl KindSet {
    /// The set that holds exactly the given kinds.
    pub fn new(kinds: &[Kind]) -> (set: Self)
        ensures
            forall|k: Kind| #[trigger] set@.contains(k) <==> kinds@.contains(k),
    {
        let mut set = KindSet { bits: 0 };
        let mut i: usize = 0;
        proof {
            assert forall|k: Kind| !set@.contains(k) by {
                let j = k.position();
                assert(0u32 & (1u32 << j) == 0) by (bit_vector);
            }
            assert(kinds@.take(0) =~= Seq::<Kind>::empty());
        }
        while i < kinds.len()
            invariant
                i <= kinds@.len(),
                forall|k: Kind| #[trigger] set@.contains(k) <==> kinds@.take(i as int).contains(k),
            decreases kinds@.len() - i,
        {
            let ghost before = set;
            let kind = kinds[i];
            let at: u32 = kind.index();
            set = KindSet { bits: set.bits | (1u32 << at) };
            proof {
                let taken = kinds@.take(i as int);
                assert(kinds@.take(i + 1) =~= taken.push(kind));
                assert forall|k: Kind|
                    #[trigger] set@.contains(k) <==> kinds@.take(i + 1).contains(k) by {
                    lemma_set_bit(before.bits, at, k.position());
                    assert(set@.contains(k) <==> k == kind || before@.contains(k));
                    if k == kind {
                        assert(taken.push(kind)[i as int] == k);
                    }
                    if taken.contains(k) {
                        let j = choose|j: int| 0 <= j < taken.len() && taken[j] == k;
                        assert(taken.push(kind)[j] == k);
                    }
                }
            }
            i = i + 1;
        }
        assert(kinds@.take(i as int) =~= kinds@);
        set
    }

    /// Whether the kind is in the set.
    pub fn contains(&self, kind: Kind) -> (b: bool)
        ensures
            b == self@.contains(kind),
    {
        let at: u32 = kind.index();
        self.bits & (1u32 << at) != 0
    }
}

/// How a token wants to be set apart from its neighbours when it is written out.
#[derive(Debug, Clone, Copy, PartialEq, Eq, PartialOrd, Ord, Hash, Structural)]
pub struct AssociatedWhitespaceRules {
    pub enforce_before: bool,
    pub enforce_after: bool,
    pub ban_after: bool,
}

impl AssociatedWhitespaceRules {
    /// No rule at all.
    pub open spec fn spec_none() -> Self {
        AssociatedWhitespaceRules { enforce_before: false, enforce_after: false, ban_after: false }
    }

    /// Whitespace is required on both sides.
    pub open spec fn spec_enforced() -> Self {
        AssociatedWhitespaceRules { enforce_before: true, enforce_after: true, ban_after: false }
    }

    /// No rule at all.
    pub fn none() -> (r: Self)
        ensures
            r == Self::spec_none(),
            !r.enforce_before && !r.enforce_after && !r.ban_after,
    {
        AssociatedWhitespaceRules { enforce_before: false, enforce_after: false, ban_after: false }
    }

    /// Whitespace is required on the left.
    pub fn enforce_before() -> (r: Self)
        ensures
            r == (AssociatedWhitespaceRules { enforce_before: true, ..Self::spec_none() }),
            r.enforce_before && !r.enforce_after && !r.ban_after,
    {
        AssociatedWhitespaceRules { enforce_before: true, enforce_after: false, ban_after: false }
    }

    /// Whitespace is required on the right.
    pub fn enforce_after() -> (r: Self)
        ensures
            r == (AssociatedWhitespaceRules { enforce_after: true, ..Self::spec_none() }),
            !r.enforce_before && r.enforce_after && !r.ban_after,
    {
        AssociatedWhitespaceRules { enforce_before: false, enforce_after: true, ban_after: false }
    }

    /// The rules of both.
    pub fn union(self, other: Self) -> (r: Self)
        ensures
            r.enforce_before == (self.enforce_before || other.enforce_before),
            r.enforce_after == (self.enforce_after || other.enforce_after),
            r.ban_after == (self.ban_after || other.ban_after),
    {
        AssociatedWhitespaceRules {
            enforce_before: self.enforce_before || other.enforce_before,
            enforce_after: self.enforce_after || other.enforce_after,
            ban_after: self.ban_after || other.ban_after,
        }
    }
}

/// A token as the tokenizer hands it over, without its place in the source.
///
/// `delim` is the character of a delimiter. `meaning` stands for what the tokenizer read from the
/// token beyond its kind: the value of a number, the value and unit of a dimension, the name of an
/// identifier or of a function. Two spellings of one value share one `meaning`.
#[derive(Debug, Clone, Copy, PartialEq, Eq, PartialOrd, Ord, Hash)]
pub struct Token {
    pub kind: Kind,
    pub delim: Option<char>,
    pub meaning: u64,
    pub whitespace: AssociatedWhitespaceRules,
}

impl Token {
    /// Whether two tokens mean the same, however they are set apart from their neighbours.
    pub open spec fn same(self, other: Self) -> bool {
        self.kind == other.kind && self.delim == other.delim && self.meaning == other.meaning
    }

    /// The token with the given rules in place of its own.
    pub open spec fn ruled(self, rules: AssociatedWhitespaceRules) -> Self {
        Token { whitespace: rules, ..self }
    }

    /// Whether the token is a delimiter with one of two characters.
    pub open spec fn is_delim_of(self, a: char, b: char) -> bool {
        self.kind == Kind::Delim && (self.delim == Some(a) || self.delim == Some(b))
    }

    /// A delimiter, with no whitespace rules.
    pub fn delim(ch: char) -> (t: Self)
        ensures
            t == (Token {
                kind: Kind::Delim,
                delim: Some(ch),
                meaning: 0,
                whitespace: AssociatedWhitespaceRules::spec_none(),
            }),
    {
        Token {
            kind: Kind::Delim,
            delim: Some(ch),
            meaning: 0,
            whitespace: AssociatedWhitespaceRules::none(),
        }
    }

    /// A token that is no delimiter, with no whitespace rules.
    pub fn new(kind: Kind, meaning: u64) -> (t: Self)
        ensures
            t == (Token {
                kind,
                delim: None,
                meaning,
                whitespace: AssociatedWhitespaceRules::spec_none(),
            }),
    {
        Token { kind, delim: None, meaning, whitespace: AssociatedWhitespaceRules::none() }
    }

    /// The character of a delimiter.
    pub fn char(&self) -> (ch: Option<char>)
        ensures
            ch == self.delim,
    {
        self.delim
    }

    /// Whether two tokens mean the same, however they are set apart from their neighbours.
    pub fn semantic_eq(&self, other: &Self) -> (b: bool)
        ensures
            b == self.same(*other),
            b <==> self.kind == other.kind && self.delim == other.delim && self.meaning
                == other.meaning,
    {
        let same_delim = match (self.delim, other.delim) {
            (Some(a), Some(b)) => a == b,
            (None, None) => true,
            _ => false,
        };
        self.kind == other.kind && same_delim && self.meaning == other.meaning
    }

    /// The token with the given rules in place of its own.
    pub fn with_associated_whitespace(&self, rules: AssociatedWhitespaceRules) -> (t: Self)
        ensures
            t == self.ruled(rules),
            t.kind == self.kind && t.delim == self.delim && t.meaning == self.meaning,
            t.whitespace == rules,
    {
        Token { kind: self.kind, delim: self.delim, meaning: self.meaning, whitespace: rules }
    }
}

} // verus!
