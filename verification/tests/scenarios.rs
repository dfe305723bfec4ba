use regex_based_lexer::Item;
use regex_based_lexer::LexError;
use regex_based_lexer::Span;
use regex_based_lexer::Token;
use regex_based_lexer::hand_written;
use regex_based_lexer::multi_regex;
use regex_based_lexer::single_regex;

fn lex_all_three(src: &str) -> [Result<Vec<Token>, LexError>; 3] {
    [
        hand_written::Lexer::new(src).lex(),
        multi_regex::Lexer::new(src).lex(),
        single_regex::Lexer::new(src).lex(),
    ]
}

#[test]
fn equivalence_across_strategies() {
    let inputs = [
        "",
        "person = (head + body) * \"mind\" + 42",
        "a / b",
        "a // b",
        "// one\n// two",
        "x=1+2*3-4/5",
        "  \t\r\n  ",
        "\"\"",
        "\"open",
        "\"ab\ncd\"",
        "# foo",
        "2147483647",
        "2147483648",
        "42abc007xyz",
        "\"h\u{e9}llo\" = x",
        "/",
        "//",
        "a//",
    ];
    for src in inputs {
        let [hand, multi, single] = lex_all_three(src);
        assert_eq!(hand, multi);
        assert_eq!(hand, single);
    }
}

#[test]
fn divide_token_with_spaces() {
    // "a / b" yields Divide at the slash.
    let expected = vec![
        Token(Item::Ident("a".to_string()), Span(0, 1)),
        Token(Item::Divide, Span(2, 1)),
        Token(Item::Ident("b".to_string()), Span(4, 1)),
    ];
    for r in lex_all_three("a / b") {
        assert_eq!(r.unwrap(), expected);
    }
}

#[test]
fn comment_instead_of_divide() {
    // "a // b" yields no token for the comment.
    let expected = vec![Token(Item::Ident("a".to_string()), Span(0, 1))];
    for r in lex_all_three("a // b") {
        assert_eq!(r.unwrap(), expected);
    }
}

#[test]
fn comment_resumes_after_line() {
    let expected = vec![
        Token(Item::Ident("a".to_string()), Span(0, 1)),
        Token(Item::Ident("b".to_string()), Span(7, 1)),
    ];
    for r in lex_all_three("a // c\nb") {
        assert_eq!(r.unwrap(), expected);
    }
}

#[test]
fn two_comments_yield_nothing() {
    for r in lex_all_three("// one\n// two") {
        assert_eq!(r.unwrap(), Vec::new());
    }
}

#[test]
fn unterminated_string_fails() {
    for r in lex_all_three("\"open") {
        assert_eq!(r, Err(LexError::UnterminatedString(0)));
    }
}

#[test]
fn string_reaching_newline_fails() {
    for r in lex_all_three("x = \"ab\ncd\"") {
        assert_eq!(r, Err(LexError::UnterminatedString(4)));
    }
}

#[test]
fn unknown_token_fails_at_offset() {
    for r in lex_all_three("# foo") {
        assert_eq!(r, Err(LexError::UnknownToken('#', 0)));
    }
}

#[test]
fn largest_integer_fits() {
    let expected = vec![Token(Item::Integer(2147483647), Span(0, 10))];
    for r in lex_all_three("2147483647") {
        assert_eq!(r.unwrap(), expected);
    }
}

#[test]
fn integer_overflow_is_reported() {
    for r in lex_all_three("x = 2147483648") {
        assert_eq!(r, Err(LexError::Overflow(4)));
    }
}

#[test]
fn leading_zeros_parse() {
    let expected = vec![Token(Item::Integer(7), Span(0, 3))];
    for r in lex_all_three("007") {
        assert_eq!(r.unwrap(), expected);
    }
}

#[test]
fn empty_input_yields_no_tokens() {
    for r in lex_all_three("") {
        assert_eq!(r.unwrap(), Vec::new());
    }
}

#[test]
fn lone_slash_is_divide() {
    let expected = vec![Token(Item::Divide, Span(0, 1))];
    for r in lex_all_three("/") {
        assert_eq!(r.unwrap(), expected);
    }
}

#[test]
fn comment_at_end_of_input() {
    for r in lex_all_three("//") {
        assert_eq!(r.unwrap(), Vec::new());
    }
}

#[test]
fn empty_quote_has_empty_span() {
    let expected = vec![Token(Item::Quote(String::new()), Span(1, 0))];
    for r in lex_all_three("\"\"") {
        assert_eq!(r.unwrap(), expected);
    }
}

#[test]
fn greedy_runs_are_maximal() {
    // A digit run and a letter run meet without being split.
    let expected = vec![
        Token(Item::Integer(42), Span(0, 2)),
        Token(Item::Ident("abc".to_string()), Span(2, 3)),
    ];
    for r in lex_all_three("42abc") {
        assert_eq!(r.unwrap(), expected);
    }
}

#[test]
fn spans_count_characters_not_bytes() {
    // The e-acute inside the quote is two bytes but one character, so
    // everything after it stands one character later, not two.
    let expected = vec![
        Token(Item::Quote("h\u{e9}llo".to_string()), Span(1, 5)),
        Token(Item::Equal, Span(8, 1)),
        Token(Item::Ident("x".to_string()), Span(10, 1)),
    ];
    for r in lex_all_three("\"h\u{e9}llo\" = x") {
        assert_eq!(r.unwrap(), expected);
    }
}

#[test]
fn non_ascii_letter_is_unknown() {
    for r in lex_all_three("caf\u{e9}") {
        assert_eq!(r, Err(LexError::UnknownToken('\u{e9}', 3)));
    }
}

#[test]
fn mixed_whitespace_kinds() {
    let expected = vec![
        Token(Item::Ident("a".to_string()), Span(0, 1)),
        Token(Item::Equal, Span(2, 1)),
        Token(Item::Integer(1), Span(5, 1)),
    ];
    for r in lex_all_three("a\t=\r\n1") {
        assert_eq!(r.unwrap(), expected);
    }
}

#[test]
fn operator_kinds_parse_from_rule_names() {
    assert_eq!("Plus".parse::<Item>(), Ok(Item::Plus));
    assert_eq!("Minus".parse::<Item>(), Ok(Item::Minus));
    assert_eq!("Multiply".parse::<Item>(), Ok(Item::Multiply));
    assert_eq!("Divide".parse::<Item>(), Ok(Item::Divide));
    assert_eq!("Equal".parse::<Item>(), Ok(Item::Equal));
    assert_eq!("LParen".parse::<Item>(), Ok(Item::LParen));
    assert_eq!("RParen".parse::<Item>(), Ok(Item::RParen));
    assert_eq!("Comment".parse::<Item>(), Err(()));
}

#[test]
fn all_operators_in_order() {
    let expected = vec![
        Token(Item::Plus, Span(0, 1)),
        Token(Item::Minus, Span(1, 1)),
        Token(Item::Multiply, Span(2, 1)),
        Token(Item::Divide, Span(3, 1)),
        Token(Item::Equal, Span(4, 1)),
        Token(Item::LParen, Span(5, 1)),
        Token(Item::RParen, Span(6, 1)),
    ];
    for r in lex_all_three("+-*/=()") {
        assert_eq!(r.unwrap(), expected);
    }
}
