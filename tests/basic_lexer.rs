use lexkit::basic::{BasicLexer, BasicToken, BasicTokenizer};
use lexkit::Token;
use std::rc::Rc;

fn lexer(input: &str) -> BasicLexer<'_> {
    BasicLexer::new(Rc::new(BasicTokenizer {}), input)
}

fn name(s: &str) -> BasicToken {
    BasicToken::Name(String::from(s))
}

#[test]
fn test_positive_numbers() {
    let mut sut = lexer("2345");

    assert_eq!(sut.next_token(), BasicToken::Number(2345));
    assert_eq!(sut.next_token(), BasicToken::EOF);
}

#[test]
fn test_negative_numbers() {
    let mut sut = lexer("-9956");

    assert_eq!(sut.next_token(), BasicToken::Number(-9956));
    assert_eq!(sut.next_token(), BasicToken::EOF);
}

#[test]
fn test_name() {
    let mut sut = lexer("monkey");

    assert_eq!(sut.next_token(), BasicToken::Name(String::from("monkey")));
    assert_eq!(sut.next_token(), BasicToken::EOF);
}

#[test]
fn test_name_2() {
    let mut sut = lexer("<>");

    assert_eq!(sut.next_token(), BasicToken::Name(String::from("<>")));
    assert_eq!(sut.next_token(), BasicToken::EOF);
}

#[test]
fn test_multiple_tokens() {
    let mut sut = lexer("( define not (boolval) ( if boolval 0 1))");

    assert_eq!(sut.next_token(), BasicToken::LParen);
    assert_eq!(sut.next_token(), BasicToken::Define);
    assert_eq!(sut.next_token(), BasicToken::Name(String::from("not")));
    assert_eq!(sut.next_token(), BasicToken::LParen);
    assert_eq!(sut.next_token(), BasicToken::Name(String::from("boolval")));
    assert_eq!(sut.next_token(), BasicToken::RParen);
    assert_eq!(sut.next_token(), BasicToken::LParen);
    assert_eq!(sut.next_token(), BasicToken::If);
    assert_eq!(sut.next_token(), BasicToken::Name(String::from("boolval")));
    assert_eq!(sut.next_token(), BasicToken::Number(0));
    assert_eq!(sut.next_token(), BasicToken::Number(1));
    assert_eq!(sut.next_token(), BasicToken::RParen);
    assert_eq!(sut.next_token(), BasicToken::RParen);
    assert_eq!(sut.next_token(), BasicToken::EOF);
}

#[test]
fn test_right_paranthesis_do_not_need_space() {
    let mut sut = lexer(")");

    assert_eq!(sut.next_token(), BasicToken::RParen);
    assert_eq!(sut.next_token(), BasicToken::EOF);
}

#[test]
fn test_symbols_and_keywords() {
    let cases = vec![
        ("= ", BasicToken::Eq),
        ("+ ", BasicToken::Plus),
        ("- ", BasicToken::Minus),
        ("* ", BasicToken::Asteriks),
        ("/ ", BasicToken::Slash),
        ("< ", BasicToken::LT),
        ("> ", BasicToken::GT),
        ("( ", BasicToken::LParen),
        (") ", BasicToken::RParen),
        ("print ", BasicToken::Print),
        ("if ", BasicToken::If),
        ("while ", BasicToken::While),
        ("set ", BasicToken::SetVar),
        ("begin ", BasicToken::Begin),
        ("define ", BasicToken::Define),
    ];
    for (input, expected) in cases {
        let mut sut = lexer(input);
        assert_eq!(sut.next_token(), expected);
        assert_eq!(sut.next_token(), BasicToken::EOF);
    }
}

#[test]
fn basic_blank_input_is_end() {
    let mut sut = lexer(" \t\r\n  ");

    assert_eq!(sut.next_token(), BasicToken::EOF);
    assert_eq!(sut.next_token(), BasicToken::EOF);
    assert_eq!(sut.next_token(), BasicToken::EOF);
}

#[test]
fn basic_empty_input_is_end() {
    let mut sut = lexer("");

    assert_eq!(sut.next_token(), BasicToken::EOF);
    assert_eq!(sut.next_token(), BasicToken::EOF);
}

#[test]
fn basic_operator_without_space_is_name() {
    let mut sut = lexer("+x");

    assert_eq!(sut.next_token(), name("+x"));
    assert_eq!(sut.next_token(), BasicToken::EOF);
}

#[test]
fn basic_operator_at_end_maps_through_table() {
    let mut sut = lexer("-");

    assert_eq!(sut.next_token(), BasicToken::Minus);
    assert_eq!(sut.next_token(), BasicToken::EOF);
}

#[test]
fn basic_semicolon_is_illegal() {
    let mut sut = lexer(";;a");

    assert_eq!(sut.next_token(), BasicToken::Illegal);
    assert_eq!(sut.next_token(), BasicToken::Illegal);
    assert_eq!(sut.next_token(), name("a"));
    assert_eq!(sut.next_token(), BasicToken::EOF);
}

#[test]
fn basic_names_stop_at_digits() {
    let mut sut = lexer("abc12 x");

    assert_eq!(sut.next_token(), name("abc"));
    assert_eq!(sut.next_token(), BasicToken::Number(12));
    assert_eq!(sut.next_token(), name("x"));
    assert_eq!(sut.next_token(), BasicToken::EOF);
}

#[test]
fn basic_number_too_large_is_name() {
    let mut sut = lexer("99999999999999999999");

    assert_eq!(sut.next_token(), name("99999999999999999999"));
    assert_eq!(sut.next_token(), BasicToken::EOF);
}

#[test]
fn basic_smallest_number() {
    let mut sut = lexer("-9223372036854775808");

    assert_eq!(sut.next_token(), BasicToken::Number(-9223372036854775808));
    assert_eq!(sut.next_token(), BasicToken::EOF);
}

#[test]
fn basic_minus_then_space_is_operator() {
    let mut sut = lexer("- 5");

    assert_eq!(sut.next_token(), BasicToken::Minus);
    assert_eq!(sut.next_token(), BasicToken::Number(5));
    assert_eq!(sut.next_token(), BasicToken::EOF);
}

#[test]
fn basic_literals() {
    assert_eq!(BasicToken::Number(-9956).literal(), "-9956");
    assert_eq!(BasicToken::Number(0).literal(), "0");
    assert_eq!(BasicToken::Number(2345).literal(), "2345");
    assert_eq!(name("boolval").literal(), "boolval");
    assert_eq!(BasicToken::Define.literal(), "DEFINE");
    assert_eq!(BasicToken::SetVar.literal(), "SET");
    assert_eq!(BasicToken::LParen.literal(), "(");
    assert_eq!(BasicToken::Illegal.literal(), "ILLEGAL");
    assert_eq!(BasicToken::EOF.literal(), "EOF");
}

#[test]
fn basic_character_classes() {
    assert!(BasicTokenizer::is_digit('7'));
    assert!(!BasicTokenizer::is_digit('a'));
    assert!(BasicTokenizer::is_name('<'));
    assert!(!BasicTokenizer::is_name('('));
    assert!(!BasicTokenizer::is_name('\0'));
    assert!(BasicTokenizer::is_white_space('\t'));
    assert!(!BasicTokenizer::is_white_space('x'));
}

#[test]
fn basic_null_character_ends_a_scan() {
    let mut sut = lexer("x \0 7");

    assert_eq!(sut.next_token(), name("x"));
    assert_eq!(sut.next_token(), BasicToken::EOF);
    assert_eq!(sut.next_token(), BasicToken::EOF);
}
