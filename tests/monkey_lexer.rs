use lexkit::monkey::{MonkeyLexer, MonkeyToken, MonkeyTokenizer};
use lexkit::Token;
use std::rc::Rc;

fn lexer(input: &str) -> MonkeyLexer<'_> {
    MonkeyLexer::new(Rc::new(MonkeyTokenizer {}), input)
}

fn ident(s: &str) -> MonkeyToken {
    MonkeyToken::Ident(String::from(s))
}

#[test]
fn test_ints() {
    let mut sut = lexer("2345");

    assert_eq!(sut.next_token(), MonkeyToken::Int(2345));
    assert_eq!(sut.next_token(), MonkeyToken::EOF);
}

#[test]
fn test_idents() {
    let mut sut = lexer("monkey");

    assert_eq!(sut.next_token(), MonkeyToken::Ident(String::from("monkey")));
    assert_eq!(sut.next_token(), MonkeyToken::EOF);
}

#[test]
fn lexer_test_multiple_tokens() {
    let mut sut = lexer("let monkey = true");

    assert_eq!(sut.next_token(), MonkeyToken::Let);
    assert_eq!(sut.next_token(), MonkeyToken::Ident(String::from("monkey")));
    assert_eq!(sut.next_token(), MonkeyToken::Assign);
    assert_eq!(sut.next_token(), MonkeyToken::True);
    assert_eq!(sut.next_token(), MonkeyToken::EOF);
}

#[test]
fn test_edge_cases() {
    let mut sut = lexer("monkey123 <= ! = 98;nam");

    assert_eq!(sut.next_token(), MonkeyToken::Ident(String::from("monkey")));
    assert_eq!(sut.next_token(), MonkeyToken::Int(123));
    assert_eq!(sut.next_token(), MonkeyToken::LT);
    assert_eq!(sut.next_token(), MonkeyToken::Assign);
    assert_eq!(sut.next_token(), MonkeyToken::Bang);
    assert_eq!(sut.next_token(), MonkeyToken::Assign);
    assert_eq!(sut.next_token(), MonkeyToken::Int(98));
    assert_eq!(sut.next_token(), MonkeyToken::Semicolon);
    assert_eq!(sut.next_token(), MonkeyToken::Ident(String::from("nam")));
    assert_eq!(sut.next_token(), MonkeyToken::EOF);
}

#[test]
fn monkey_symbols_and_keywords() {
    let cases = vec![
        ("=", MonkeyToken::Assign),
        ("==", MonkeyToken::Eq),
        ("!", MonkeyToken::Bang),
        ("!=", MonkeyToken::NotEq),
        ("+", MonkeyToken::Plus),
        ("-", MonkeyToken::Minus),
        ("*", MonkeyToken::Asteriks),
        ("/", MonkeyToken::Slash),
        ("<", MonkeyToken::LT),
        (">", MonkeyToken::GT),
        (";", MonkeyToken::Semicolon),
        ("(", MonkeyToken::LParen),
        (")", MonkeyToken::RParen),
        ("{", MonkeyToken::LBrace),
        ("}", MonkeyToken::RBrace),
        (",", MonkeyToken::Comma),
        ("fn", MonkeyToken::Function),
        ("let", MonkeyToken::Let),
        ("true", MonkeyToken::True),
        ("false", MonkeyToken::False),
        ("if", MonkeyToken::If),
        ("else", MonkeyToken::Else),
        ("return", MonkeyToken::Return),
    ];
    for (input, expected) in cases {
        let mut sut = lexer(input);
        assert_eq!(sut.next_token(), expected);
        assert_eq!(sut.next_token(), MonkeyToken::EOF);
    }
}

#[test]
fn monkey_blank_input_is_end() {
    let mut sut = lexer("  \n\t ");

    assert_eq!(sut.next_token(), MonkeyToken::EOF);
    assert_eq!(sut.next_token(), MonkeyToken::EOF);
}

#[test]
fn monkey_illegal_characters_one_each() {
    let mut sut = lexer("@#x");

    assert_eq!(sut.next_token(), MonkeyToken::Illegal);
    assert_eq!(sut.next_token(), MonkeyToken::Illegal);
    assert_eq!(sut.next_token(), ident("x"));
    assert_eq!(sut.next_token(), MonkeyToken::EOF);
}

#[test]
fn monkey_minus_is_not_folded() {
    let mut sut = lexer("-5");

    assert_eq!(sut.next_token(), MonkeyToken::Minus);
    assert_eq!(sut.next_token(), MonkeyToken::Int(5));
    assert_eq!(sut.next_token(), MonkeyToken::EOF);
}

#[test]
fn monkey_double_equals_then_assign() {
    let mut sut = lexer("===!==");

    assert_eq!(sut.next_token(), MonkeyToken::Eq);
    assert_eq!(sut.next_token(), MonkeyToken::Assign);
    assert_eq!(sut.next_token(), MonkeyToken::NotEq);
    assert_eq!(sut.next_token(), MonkeyToken::Assign);
    assert_eq!(sut.next_token(), MonkeyToken::EOF);
}

#[test]
fn monkey_function_literal() {
    let mut sut = lexer("fn(x, y) { return x + y; }");

    assert_eq!(sut.next_token(), MonkeyToken::Function);
    assert_eq!(sut.next_token(), MonkeyToken::LParen);
    assert_eq!(sut.next_token(), ident("x"));
    assert_eq!(sut.next_token(), MonkeyToken::Comma);
    assert_eq!(sut.next_token(), ident("y"));
    assert_eq!(sut.next_token(), MonkeyToken::RParen);
    assert_eq!(sut.next_token(), MonkeyToken::LBrace);
    assert_eq!(sut.next_token(), MonkeyToken::Return);
    assert_eq!(sut.next_token(), ident("x"));
    assert_eq!(sut.next_token(), MonkeyToken::Plus);
    assert_eq!(sut.next_token(), ident("y"));
    assert_eq!(sut.next_token(), MonkeyToken::Semicolon);
    assert_eq!(sut.next_token(), MonkeyToken::RBrace);
    assert_eq!(sut.next_token(), MonkeyToken::EOF);
}

#[test]
fn monkey_null_character_ends_a_scan() {
    let mut sut = lexer("a\0b");

    assert_eq!(sut.next_token(), ident("a"));
    assert_eq!(sut.next_token(), MonkeyToken::EOF);
    assert_eq!(sut.next_token(), MonkeyToken::EOF);
    assert_eq!(sut.next_token(), MonkeyToken::EOF);
}

#[test]
fn monkey_after_illegal_run_scans_like_the_rest() {
    let mut sut = lexer("@#.let x");
    let mut rest = lexer("let x");

    assert_eq!(sut.next_token(), MonkeyToken::Illegal);
    assert_eq!(sut.next_token(), MonkeyToken::Illegal);
    assert_eq!(sut.next_token(), MonkeyToken::Illegal);
    assert_eq!(sut.next_token(), rest.next_token());
    assert_eq!(sut.next_token(), rest.next_token());
    assert_eq!(sut.next_token(), MonkeyToken::EOF);
    assert_eq!(rest.next_token(), MonkeyToken::EOF);
}

#[test]
fn monkey_literals() {
    assert_eq!(MonkeyToken::Int(-42).literal(), "-42");
    assert_eq!(MonkeyToken::Int(123).literal(), "123");
    assert_eq!(ident("nam").literal(), "nam");
    assert_eq!(MonkeyToken::NotEq.literal(), "!=");
    assert_eq!(MonkeyToken::Function.literal(), "FUNCTION");
    assert_eq!(MonkeyToken::Return.literal(), "RETURN");
}

#[test]
fn monkey_character_classes() {
    assert!(MonkeyTokenizer::is_digit('0'));
    assert!(!MonkeyTokenizer::is_digit('x'));
    assert!(MonkeyTokenizer::is_letter('_'));
    assert!(MonkeyTokenizer::is_letter('Q'));
    assert!(!MonkeyTokenizer::is_letter('1'));
}
