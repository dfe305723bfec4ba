use regex_based_lexer::Item;
use regex_based_lexer::Span;
use regex_based_lexer::Token;
use regex_based_lexer::hand_written;
use regex_based_lexer::multi_regex;
use regex_based_lexer::single_regex;

fn expected_simple() -> Vec<Token> {
    vec![
        Token(Item::Ident("person".to_string()), Span(0, 6)),
        Token(Item::Equal, Span(7, 1)),
        Token(Item::LParen, Span(9, 1)),
        Token(Item::Ident("head".to_string()), Span(10, 4)),
        Token(Item::Plus, Span(15, 1)),
        Token(Item::Ident("body".to_string()), Span(17, 4)),
        Token(Item::RParen, Span(21, 1)),
        Token(Item::Multiply, Span(23, 1)),
        Token(Item::Quote("mind".to_string()), Span(26, 4)),
        Token(Item::Plus, Span(32, 1)),
        Token(Item::Integer(42), Span(34, 2)),
    ]
}

#[test]
fn hand_written_simple_src() {
    let src = "person = (head + body) * \"mind\" + 42";
    let lexer = hand_written::Lexer::new(src);
    assert_eq!(lexer.lex().unwrap(), expected_simple());
}

#[test]
fn multi_regex_simple_src() {
    let src = "person = (head + body) * \"mind\" + 42";
    let lexer = multi_regex::Lexer::new(src);
    assert_eq!(lexer.lex().unwrap(), expected_simple());
}

#[test]
fn single_regex_simple_src() {
    let src = "person = (head + body) * \"mind\" + 42";
    let lexer = single_regex::Lexer::new(src);
    assert_eq!(lexer.lex().unwrap(), expected_simple());
}

#[test]
fn it_works() {}
