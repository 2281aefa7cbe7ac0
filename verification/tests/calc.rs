use bumpalo::Bump;
use css_calc::arena::{CalcArgs, CalcProductTail, CalcSumTail};
use css_calc::block::FunctionBlock;
use css_calc::calc::{
    CalcArg, CalcExpression, CalcParens, CalcProduct, CalcProductOp, CalcSum, CalcSumOp, CalcValue,
};
use css_calc::cursor::{Cursor, CursorSink, Delim, Number, Span};
use css_calc::names::{is_calc, is_math_function};
use css_calc::parser::{Diagnostic, Parser};
use css_calc::token::{AssociatedWhitespaceRules, Kind, KindSet, Token};

// ---- a tokenizer, enough for the sources below ----

fn hash(text: &str) -> u64 {
    let mut h: u64 = 0xcbf2_9ce4_8422_2325;
    for b in text.bytes() {
        h = (h ^ b as u64).wrapping_mul(0x0100_0000_01b3);
    }
    h
}

fn is_name_start(c: char) -> bool {
    c.is_alphabetic() || c == '_' || !c.is_ascii()
}

fn is_name(c: char) -> bool {
    is_name_start(c) || c.is_ascii_digit() || c == '-'
}

fn starts_ident(text: &str) -> bool {
    let mut chars = text.chars();
    match chars.next() {
        Some('-') => matches!(chars.next(), Some(c) if c == '-' || is_name_start(c)),
        Some(c) => is_name_start(c),
        None => false,
    }
}

fn name_len(text: &str) -> usize {
    text.chars().take_while(|c| is_name(*c)).map(|c| c.len_utf8()).sum()
}

fn number_len(text: &str) -> usize {
    let b = text.as_bytes();
    let mut i = 0;
    if i < b.len() && (b[i] == b'+' || b[i] == b'-') {
        i += 1;
    }
    let mut digits = 0;
    while i < b.len() && b[i].is_ascii_digit() {
        i += 1;
        digits += 1;
    }
    if i + 1 < b.len() && b[i] == b'.' && b[i + 1].is_ascii_digit() {
        i += 1;
        while i < b.len() && b[i].is_ascii_digit() {
            i += 1;
            digits += 1;
        }
    }
    if digits == 0 {
        0
    } else {
        i
    }
}

fn lex(source: &str) -> Vec<Cursor> {
    let mut out = Vec::new();
    let mut at = 0;
    while at < source.len() {
        let rest = &source[at..];
        let first = rest.chars().next().unwrap();
        let number = number_len(rest);
        let (len, token) = if first.is_whitespace() {
            let len = rest.chars().take_while(|c| c.is_whitespace()).map(|c| c.len_utf8()).sum();
            (len, Token::new(Kind::Whitespace, 0))
        } else if rest.starts_with("/*") {
            let len = rest.find("*/").map(|i| i + 2).unwrap_or(rest.len());
            (len, Token::new(Kind::Comment, 0))
        } else if number > 0 {
            let value = rest[..number].parse::<f64>().unwrap().to_bits();
            let unit = &rest[number..];
            if unit.starts_with('%') {
                (number + 1, Token::new(Kind::Dimension, value ^ hash("%")))
            } else if starts_ident(unit) {
                let n = name_len(unit);
                (number + n, Token::new(Kind::Dimension, value ^ hash(&unit[..n])))
            } else {
                (number, Token::new(Kind::Number, value))
            }
        } else if starts_ident(rest) {
            let n = name_len(rest);
            if rest[n..].starts_with('(') {
                if &rest[..n] == "url" {
                    let len = rest.find(')').map(|i| i + 1).unwrap_or(rest.len());
                    (len, Token::new(Kind::Url, hash(&rest[..len])))
                } else {
                    (n + 1, Token::new(Kind::Function, hash(&rest[..n])))
                }
            } else {
                (n, Token::new(Kind::Ident, hash(&rest[..n])))
            }
        } else {
            let token = match first {
                '(' => Token::new(Kind::LeftParen, 0),
                ')' => Token::new(Kind::RightParen, 0),
                '[' => Token::new(Kind::LeftSquare, 0),
                ']' => Token::new(Kind::RightSquare, 0),
                '{' => Token::new(Kind::LeftCurly, 0),
                '}' => Token::new(Kind::RightCurly, 0),
                ',' => Token::new(Kind::Comma, 0),
                ':' => Token::new(Kind::Colon, 0),
                ';' => Token::new(Kind::Semicolon, 0),
                c => Token::delim(c),
            };
            (first.len_utf8(), token)
        };
        out.push(Cursor::new(Span::new(at as u32, (at + len) as u32), token));
        at += len;
    }
    out
}

// ---- helpers ----

/// The text of the cursors, with the whitespace and comments of the source between them.
fn text_with_trivia(source: &str, written: &[Cursor]) -> String {
    let mut all: Vec<Cursor> =
        lex(source).into_iter().filter(|c| c.token.kind.is_trivia()).collect();
    all.extend_from_slice(written);
    all.sort_by_key(|c| c.span.start);
    all.iter().map(|c| c.str_slice(source)).collect()
}

/// The text of the cursors alone, with a space wherever a cursor requires one.
fn text_by_rules(source: &str, written: &[Cursor]) -> String {
    let mut text = String::new();
    let mut due = false;
    for c in written {
        if (due || c.token.whitespace.enforce_before) && !text.ends_with(' ') {
            text.push(' ');
        }
        text.push_str(c.str_slice(source));
        due = c.token.whitespace.enforce_after;
    }
    text
}

fn cursors_of(node: &CalcExpression) -> Vec<Cursor> {
    let mut sink: Vec<Cursor> = Vec::new();
    node.to_cursors(&mut sink);
    sink
}

fn read<'a>(bump: &'a Bump, source: &'a str) -> Result<CalcExpression<'a>, Diagnostic> {
    let mut p = Parser::new(bump, source, lex(source));
    let r = CalcExpression::parse(&mut p);
    if r.is_ok() {
        assert!(p.at_end(), "something is left of {source:?}");
    }
    r
}

fn assert_parse(source: &str) {
    let bump = Bump::new();
    let node = match read(&bump, source) {
        Ok(node) => node,
        Err(d) => panic!("{source:?} is stuck at {:?}", d.cursor),
    };
    assert_eq!(text_with_trivia(source, &cursors_of(&node)), source);
}

fn assert_peek_false(source: &str) {
    let bump = Bump::new();
    let p = Parser::new(&bump, source, lex(source));
    let c = p.peek();
    assert!(!CalcExpression::peek(&p, c), "{source:?}");
}

/// The text at which reading gets stuck.
fn stuck_at(source: &str) -> String {
    let bump = Bump::new();
    let mut p = Parser::new(&bump, source, lex(source));
    let r = CalcExpression::parse(&mut p);
    assert!(r.is_err(), "{source:?} was read");
    let d = r.unwrap_err();
    assert_eq!(p.peek(), d.cursor);
    d.cursor.str_slice(source).to_string()
}

// ---- reading and writing ----

#[test]
fn test_peek_only_math_functions() {
    assert_peek_false("var(--x)");
    assert_peek_false("url(foo)");
    assert_peek_false("rgb(0,0,0)");
}

#[test]
fn test_parse_calc_simple() {
    assert_parse("calc(1px)");
    assert_parse("calc(5px + 1px)");
    assert_parse("calc(5px - 1px)");
    assert_parse("calc(5px * 2)");
    assert_parse("calc(5px / 2)");
}

#[test]
fn test_parse_calc_precedence() {
    assert_parse("calc(1 + 2 * 3)");
}

#[test]
fn test_parse_calc_parens() {
    assert_parse("calc((5px - 1px) + 2px)");
    assert_parse("calc((var(--x) / -2) - 5px)");
}

#[test]
fn test_parse_calc_nested_calc() {
    assert_parse("calc(calc(1px) + 2px)");
}

#[test]
fn test_parse_calc_with_var() {
    assert_parse("calc(var(--x) + 1px)");
    assert_parse("calc(var(--col-gap) / 2 + var(--date-col))");
}

#[test]
fn test_parse_min_max_clamp() {
    assert_parse("min(5px, 10px)");
    assert_parse("max(5px, 10px)");
    assert_parse("clamp(1px, 5%, 10px)");
}

#[test]
fn test_parse_mod_rem() {
    assert_parse("mod(5, 2)");
    assert_parse("rem(5, 2)");
}

#[test]
fn products_nest_inside_sums() {
    let source = "calc(1 + 2 * 3)";
    let bump = Bump::new();
    let node = read(&bump, source).unwrap();
    assert_eq!(node.args.len(), 1);
    let arg = node.args.get(0).unwrap();
    assert!(arg.trailing_comma.is_none());
    assert!(matches!(arg.sum.head.head, CalcValue::Number(_)));
    assert_eq!(arg.sum.head.tail.len(), 0);
    assert_eq!(arg.sum.tail.len(), 1);
    let (op, rhs) = arg.sum.tail.get(0).unwrap();
    assert_eq!(op.0 .0.token.char(), Some('+'));
    assert_eq!(rhs.tail.len(), 1);
    assert_eq!(rhs.tail.get(0).unwrap().0 .0 .0.token.char(), Some('*'));
    assert!(rhs.tail.get(1).is_none());
    assert!(arg.sum.tail.get(1).is_none());
    assert!(node.args.get(1).is_none());
}

#[test]
fn every_sort_of_value() {
    let source = "calc(1 + 2px + pi + max(1) + var(--x, [a {b} (c)]) + (3))";
    let bump = Bump::new();
    let node = read(&bump, source).unwrap();
    let sum = &node.args.get(0).unwrap().sum;
    assert!(matches!(sum.head.head, CalcValue::Number(_)));
    assert!(matches!(sum.tail.get(0).unwrap().1.head, CalcValue::Dimension(_)));
    assert!(matches!(sum.tail.get(1).unwrap().1.head, CalcValue::Ident(_)));
    assert!(matches!(sum.tail.get(2).unwrap().1.head, CalcValue::Calc(_)));
    match &sum.tail.get(3).unwrap().1.head {
        CalcValue::Function(f) => {
            assert_eq!(f.params.len(), 11);
            assert_eq!(f.to_span(), Span::new(29, 50));
        }
        other => panic!("{other:?}"),
    }
    match &sum.tail.get(4).unwrap().1.head {
        CalcValue::Parens(p) => assert_eq!(p.to_span(), Span::new(53, 56)),
        other => panic!("{other:?}"),
    }
    assert_parse(source);
}

#[test]
fn commas_separate_arguments() {
    let bump = Bump::new();
    let node = read(&bump, "clamp(1px, 5%, 10px)").unwrap();
    assert_eq!(node.args.len(), 3);
    assert_eq!(node.args.get(0).unwrap().trailing_comma.unwrap().0.span, Span::new(9, 10));
    assert_eq!(node.args.get(1).unwrap().trailing_comma.unwrap().0.span, Span::new(13, 14));
    assert!(node.args.get(2).unwrap().trailing_comma.is_none());
}

#[test]
fn calc_takes_a_single_sum() {
    assert_eq!(stuck_at("calc(1px, 2px)"), ",");
    assert_eq!(stuck_at("calc(1px,)"), ",");
    assert_eq!(stuck_at("min(calc(1, 2), 3)"), ",");
}

#[test]
fn where_reading_gets_stuck() {
    assert_eq!(stuck_at("var(--x)"), "var(");
    assert_eq!(stuck_at("calc()"), ")");
    assert_eq!(stuck_at("calc(1 2)"), "2");
    assert_eq!(stuck_at("calc(1 +)"), ")");
    assert_eq!(stuck_at("calc(1 + + 2)"), "+");
    assert_eq!(stuck_at("calc(1 * / 2)"), "/");
    assert_eq!(stuck_at("calc(* 1)"), "*");
    assert_eq!(stuck_at("calc((1 + 2]"), "]");
    assert_eq!(stuck_at("min(1,)"), ")");
    assert_eq!(stuck_at("min(,1)"), ",");
    assert_eq!(stuck_at("calc(var([)])"), ")");
    assert_eq!(stuck_at("calc(1; 2)"), ";");
    assert_eq!(stuck_at("1px"), "1px");
}

#[test]
fn the_end_is_unexpected_too() {
    for source in ["", "calc(", "calc(1", "calc(1 +", "calc((1)", "calc(var(--x)", "calc(var(["] {
        let bump = Bump::new();
        let mut p = Parser::new(&bump, source, lex(source));
        let d = CalcExpression::parse(&mut p).unwrap_err();
        assert_eq!(d.cursor.token.kind, Kind::Eof, "{source:?}");
        let end = source.len() as u32;
        assert_eq!(d.cursor.span, Span::new(end, end));
        assert!(p.at_end());
    }
}

#[test]
fn names_are_matched_as_written() {
    for name in ["calc", "min", "max", "clamp", "mod", "rem"] {
        assert!(is_math_function(name));
        assert!(is_math_function(&format!("{name}(")));
        assert!(is_math_function(&format!("{name}((")));
        assert!(!is_math_function(&format!("{name}()")));
        assert!(!is_math_function(&format!("({name}")));
        assert!(!is_math_function(&format!("x{name}(")));
        assert_eq!(is_calc(&format!("{name}(")), name == "calc");
    }
    assert!(!is_math_function("CALC("));
    assert!(!is_math_function("cal("));
    assert!(!is_math_function("calcs("));
    assert!(!is_math_function("("));
    assert!(!is_math_function(""));
    assert!(!is_math_function("\u{e9}calc("));
    assert!(!is_calc("var("));
}

#[test]
fn names_are_read_from_the_source() {
    // The name of the function stands behind characters of more than one byte.
    let source = "/*\u{e9}\u{4e2d}*/ calc(1)";
    assert_parse(source);
    assert_peek_false("/*\u{e9}\u{4e2d}*/ var(1)");
    let c = lex(source)[2];
    assert_eq!(c.str_slice(source), "calc(");
}

#[test]
fn trivia_makes_no_difference() {
    let bump = Bump::new();
    let tight = read(&bump, "min(1px*2,3px)").unwrap();
    let loose = read(&bump, " min( 1px /* twice */ * 2 , 3px ) ").unwrap();
    assert!(tight.semantic_eq(&loose));
    assert_parse(" min( 1px /* twice */ * 2 , 3px ) ");
}

// ---- whitespace around operators ----

#[test]
fn sum_operators_require_whitespace() {
    let bump = Bump::new();
    let node = read(&bump, "calc((1px+ 2px)*3 -(var(--a,1+ 2))- 4)").unwrap();
    for c in cursors_of(&node) {
        let rules = c.token.whitespace;
        match c.token.char() {
            Some('*') => assert_eq!(rules, AssociatedWhitespaceRules::none()),
            Some('-') => assert!(rules.enforce_before && rules.enforce_after && !rules.ban_after),
            _ => {}
        }
    }
    // `3-var` is a dimension.
    assert_eq!(stuck_at("calc((1px+ 2px)*3-var(--a))"), "(");
}

#[test]
fn written_by_the_rules() {
    for (source, written) in [
        ("calc(1px+ 2px)", "calc(1px + 2px)"),
        ("calc( 5px   -   1px )", "calc(5px - 1px)"),
        ("calc(1 * 2 + 3 / 4)", "calc(1*2 + 3/4)"),
        ("min(1+ 2,(3 -(4)))", "min(1 + 2,(3 - (4)))"),
        ("max(var(--x,1+ 2)+ 3)", "max(var(--x,1+2) + 3)"),
    ] {
        let bump = Bump::new();
        let node = read(&bump, source).unwrap();
        assert_eq!(text_by_rules(source, &cursors_of(&node)), written);
    }
}

#[test]
fn enforcing_replaces_other_rules() {
    let bump = Bump::new();
    let ban = AssociatedWhitespaceRules {
        enforce_before: false,
        enforce_after: false,
        ban_after: true,
    };
    let plus = Token::delim('+').with_associated_whitespace(ban);
    let times = Token::delim('*').with_associated_whitespace(ban);
    let both = AssociatedWhitespaceRules::enforce_before()
        .union(AssociatedWhitespaceRules::enforce_after());
    let mut p = Parser::new(
        &bump,
        "+*",
        vec![Cursor::new(Span::new(0, 1), plus), Cursor::new(Span::new(1, 2), times)],
    );
    let d = CalcProductOp::parse(&mut p).unwrap_err();
    assert_eq!(d.cursor.token, plus);
    let op = CalcSumOp::parse(&mut p).unwrap();
    assert_eq!(op.0 .0.token.whitespace, both);
    assert_eq!(op.to_span(), Span::new(0, 1));
    let d = CalcSumOp::parse(&mut p).unwrap_err();
    assert_eq!(d.cursor.token, times);
    let op = CalcProductOp::parse(&mut p).unwrap();
    assert_eq!(op.0 .0.token, times);
    assert_eq!(op.to_span(), Span::new(1, 2));
    assert!(CalcSumOp::parse(&mut p).is_err());
    assert!(CalcProductOp::parse(&mut p).is_err());
}

#[test]
fn reading_again_changes_nothing() {
    let source = "clamp(1px+ 2px, (3 - 4) * var(--x, 5+ 6), rem(7, 8))";
    let bump = Bump::new();
    let node = read(&bump, source).unwrap();
    let written = cursors_of(&node);
    let mut p = Parser::new(&bump, source, written.clone());
    let again = CalcExpression::parse(&mut p).unwrap();
    assert!(p.at_end());
    assert_eq!(again, node);
    assert_eq!(cursors_of(&again), written);
}

#[test]
fn what_follows_is_left_alone() {
    let source = "calc(1) + 2, 3";
    let bump = Bump::new();
    let mut p = Parser::new(&bump, source, lex(source));
    let node = CalcExpression::parse(&mut p).unwrap();
    assert_eq!(text_by_rules(source, &cursors_of(&node)), "calc(1)");
    assert_eq!(p.peek().str_slice(source), "+");
    assert_eq!(p.next().token, Token::delim('+'));
    let sum = CalcSum::parse(&mut p).unwrap();
    assert_eq!(sum.to_span(), Span::new(10, 11));
    assert_eq!(p.expect(Kind::Comma).unwrap().span, Span::new(11, 12));
    assert_eq!(p.expect(Kind::Comma).unwrap_err().cursor.span, Span::new(13, 14));
    assert!(CalcProduct::parse(&mut p).is_ok());
    assert_eq!(p.next().token.kind, Kind::Eof);
    assert!(CalcValue::parse(&mut p).is_err());
    assert!(CalcParens::parse(&mut p).is_err());
}

// ---- spans ----

#[test]
fn spans_reach_from_the_first_cursor_to_the_last() {
    let source = "  max( 1px * 2 + 3 , (4) - 5 )  ";
    let bump = Bump::new();
    let node = read(&bump, source).unwrap();
    assert_eq!(node.to_span(), Span::new(2, 30));
    let first = &node.args.get(0).unwrap().sum;
    assert_eq!(first.to_span(), Span::new(7, 18));
    assert_eq!(first.head.to_span(), Span::new(7, 14));
    assert_eq!(first.head.head.to_span(), Span::new(7, 10));
    let second = &node.args.get(1).unwrap().sum;
    assert_eq!(second.to_span(), Span::new(21, 28));
    assert_eq!(second.head.to_span(), Span::new(21, 24));
    for c in cursors_of(&node) {
        assert_eq!(node.to_span() + c.to_span(), node.to_span());
    }
    assert_eq!(Span::new(3, 5) + Span::new(1, 2), Span::new(1, 5));
    assert_eq!(Span::new(1, 9) + Span::new(3, 5), Span::new(1, 9));
}

// ---- meaning ----

#[test]
fn meaning_the_same() {
    let bump = Bump::new();
    let sources = [
        "calc(1px + 2px)",
        "calc(1.0px+ 2px)",
        "calc(1px - 2px)",
        "calc(1px + 3px)",
        "calc(1px)",
        "max(1px + 2px)",
        "max(1px, 2px)",
        "calc((1px + 2px))",
        "calc(1px * 2 / 3)",
        "calc(1px * 2 * 3)",
        "calc(var(--x, 1) + pi)",
        "calc( var( --x , 1.0 ) + pi )",
        "calc(var(--x) + pi)",
        "calc(min(1px) + pi)",
        "calc(1 + pi)",
    ];
    let same = [(0, 1), (10, 11)];
    for (i, a) in sources.iter().enumerate() {
        for (j, b) in sources.iter().enumerate() {
            let x = read(&bump, a).unwrap();
            let y = read(&bump, b).unwrap();
            let expected = i == j || same.contains(&(i, j)) || same.contains(&(j, i));
            assert_eq!(x.semantic_eq(&y), expected, "{a:?} {b:?}");
        }
    }
}

#[test]
fn operators_mean_their_character() {
    let plus = CalcSumOp(Delim(Cursor::new(Span::new(0, 1), Token::delim('+'))));
    let spaced = plus.0 .0.with_associated_whitespace(AssociatedWhitespaceRules::enforce_before());
    assert!(plus.semantic_eq(&CalcSumOp(Delim(spaced))));
    let minus = CalcSumOp(Delim(Cursor::new(Span::new(0, 1), Token::delim('-'))));
    assert!(!plus.semantic_eq(&minus));
    let times = CalcProductOp(Delim(Cursor::new(Span::new(4, 5), Token::delim('*'))));
    let elsewhere = CalcProductOp(Delim(Cursor::new(Span::new(9, 10), Token::delim('*'))));
    assert!(times.semantic_eq(&elsewhere));
    let mut sink: Vec<Cursor> = Vec::new();
    plus.to_cursors(&mut sink);
    times.to_cursors(&mut sink);
    assert_eq!(sink, vec![plus.0 .0, times.0 .0]);
}

// ---- kinds ----

#[test]
fn what_can_start_what() {
    let all = [
        Kind::Eof,
        Kind::Whitespace,
        Kind::Comment,
        Kind::CdcOrCdo,
        Kind::Number,
        Kind::Dimension,
        Kind::BadString,
        Kind::BadUrl,
        Kind::Ident,
        Kind::Function,
        Kind::AtKeyword,
        Kind::Hash,
        Kind::String,
        Kind::Url,
        Kind::Delim,
        Kind::Colon,
        Kind::Semicolon,
        Kind::Comma,
        Kind::LeftSquare,
        Kind::RightSquare,
        Kind::LeftParen,
        Kind::RightParen,
        Kind::LeftCurly,
        Kind::RightCurly,
    ];
    let bump = Bump::new();
    let p = Parser::new(&bump, "", Vec::new());
    for k in all {
        let c = Cursor::new(Span::new(0, 0), Token::new(k, 0));
        let value = [Kind::Number, Kind::Dimension, Kind::Ident, Kind::Function, Kind::LeftParen];
        assert_eq!(CalcValue::peek_kindset().contains(k), value.contains(&k));
        assert_eq!(CalcValue::peek(&p, c), value.contains(&k));
        assert_eq!(CalcParens::peek_kindset().contains(k), k == Kind::LeftParen);
        assert_eq!(CalcParens::peek(&p, c), k == Kind::LeftParen);
        assert_eq!(CalcExpression::peek_kindset().contains(k), k == Kind::Function);
        assert_eq!(CalcSumOp::peek_kindset().contains(k), k == Kind::Delim);
        assert_eq!(CalcProductOp::peek_kindset().contains(k), k == Kind::Delim);
        assert!(!CalcExpression::peek(&p, c));
        assert!(!CalcSumOp::peek(&p, c));
        assert!(KindSet::new(&all).contains(k));
        assert!(!KindSet::new(&[]).contains(k));
    }
    for (ch, sum, product) in
        [('+', true, false), ('-', true, false), ('*', false, true), ('/', false, true)]
    {
        let c = Cursor::new(Span::new(0, 1), Token::delim(ch));
        assert_eq!(CalcSumOp::peek(&p, c), sum);
        assert_eq!(CalcProductOp::peek(&p, c), product);
    }
    let c = Cursor::new(Span::new(0, 1), Token::delim('%'));
    assert!(!CalcSumOp::peek(&p, c) && !CalcProductOp::peek(&p, c));
}

// ---- lists and sinks ----

#[test]
fn lists_hold_what_was_pushed() {
    let bump = Bump::new();
    let number = |n: u32| {
        CalcValue::Number(Number(Cursor::new(Span::new(n, n + 1), Token::new(Kind::Number, 0))))
    };
    let delim = |n: u32, ch: char| Delim(Cursor::new(Span::new(n, n + 1), Token::delim(ch)));
    let mut factors = CalcProductTail::new_in(&bump);
    assert_eq!(factors.len(), 0);
    assert!(factors.get(0).is_none());
    for i in 0..5 {
        factors.push(CalcProductOp(delim(2 * i + 1, '*')), number(2 * i + 2));
    }
    assert_eq!(factors.len(), 5);
    assert_eq!(factors.get(3).unwrap().1, number(8));
    let product = CalcProduct { head: number(0), tail: factors };
    let mut terms = CalcSumTail::new_in(&bump);
    terms.push(CalcSumOp(delim(20, '+')), product.clone());
    terms.push(CalcSumOp(delim(21, '-')), product.clone());
    assert_eq!(terms.len(), 2);
    assert_eq!(terms.get(1).unwrap().0 .0, delim(21, '-'));
    assert_eq!(terms.get(0).unwrap().1, product);
    let sum = CalcSum { head: product, tail: terms };
    let mut args = CalcArgs::new_in(&bump);
    args.push(CalcArg { sum: sum.clone(), trailing_comma: None });
    assert_eq!(args.len(), 1);
    assert_eq!(args.get(0).unwrap().sum, sum);
    assert!(args.get(1).is_none());
    let mut sink: Vec<Cursor> = Vec::new();
    sum.to_cursors(&mut sink);
    assert_eq!(sink.len(), 3 * 11 + 2);
    assert!(sum.semantic_eq(&sum.clone()));
}

#[test]
fn a_clone_is_the_same_tree() {
    let source = "min(1px + (2 * var(--x)), calc(3 - pi))";
    let bump = Bump::new();
    let node = read(&bump, source).unwrap();
    let copy = node.clone();
    assert_eq!(copy, node);
    assert_eq!(cursors_of(&copy), cursors_of(&node));
}

#[test]
fn any_sink_gets_the_cursors_in_order() {
    struct Text {
        source: &'static str,
        text: String,
    }
    impl CursorSink for Text {
        fn append(&mut self, c: Cursor) {
            self.text.push_str(c.str_slice(self.source));
            self.text.push('|');
        }
    }
    let source = "max(1, (2) * var(--x), 3)";
    let bump = Bump::new();
    let node = read(&bump, source).unwrap();
    let mut sink = Text { source, text: String::new() };
    node.to_cursors(&mut sink);
    assert_eq!(sink.text, "max(|1|,|(|2|)|*|var(|--x|)|,|3|)|");
}

#[test]
fn blocks_close_where_they_open() {
    let source = "f(a(b)[c{d}] e) rest";
    let bump = Bump::new();
    let mut p = Parser::new(&bump, source, lex(source));
    let block = FunctionBlock::parse(&mut p).unwrap();
    assert_eq!(block.to_span(), Span::new(0, 15));
    assert_eq!(p.peek().str_slice(source), "rest");
    let mut sink: Vec<Cursor> = Vec::new();
    block.to_cursors(&mut sink);
    assert_eq!(text_by_rules(source, &sink), "f(a(b)[c{d}]e)");
    assert!(block.semantic_eq(&block.clone()));
    assert_eq!(FunctionBlock::parse(&mut p).unwrap_err().cursor.str_slice(source), "rest");
}
