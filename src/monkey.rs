use vstd::prelude::*;

use crate::lexer::{Category, Lexer};
use crate::text::{all_digits, char_at, decimal_text, digits_value, int_value, is_ascii_digit, parse_int, render_int, text_is};
use crate::token::{Token, Tokenize};

verus! {

broadcast use vstd::string::to_string_from_display_ensures_for_str;

/// Tokens of a small C-like language with keywords and two-character
/// comparison operators.
#[derive(Debug, PartialEq)]
pub enum MonkeyToken {
    Illegal,
    EOF,
    Ident(String),
    Int(isize),
    Assign,
    Plus,
    Minus,
    Bang,
    Asteriks,
    Slash,
    LT,
    GT,
    Eq,
    NotEq,
    Comma,
    Semicolon,
    LParen,
    RParen,
    LBrace,
    RBrace,
    Function,
    Let,
    True,
    False,
    If,
    Else,
    Return,
}

impl Token for MonkeyToken {
    open spec fn literal_text(&self) -> Seq<char> {
        match self {
            MonkeyToken::Illegal => "ILLEGAL"@,
            MonkeyToken::EOF => "EOF"@,
            MonkeyToken::Ident(ident) => ident@,
            MonkeyToken::Int(value) => decimal_text(*value as int),
            MonkeyToken::Assign => "="@,
            MonkeyToken::Plus => "+"@,
            MonkeyToken::Minus => "-"@,
            MonkeyToken::Bang => "!"@,
            MonkeyToken::Asteriks => "*"@,
            MonkeyToken::Slash => "/"@,
            MonkeyToken::LT => "<"@,
            MonkeyToken::GT => ">"@,
            MonkeyToken::Eq => "=="@,
            MonkeyToken::NotEq => "!="@,
            MonkeyToken::Comma => ","@,
            MonkeyToken::Semicolon => ";"@,
            MonkeyToken::LParen => "("@,
            MonkeyToken::RParen => ")"@,
            MonkeyToken::LBrace => "{"@,
            MonkeyToken::RBrace => "}"@,
            MonkeyToken::Function => "FUNCTION"@,
            MonkeyToken::Let => "LET"@,
            MonkeyToken::True => "TRUE"@,
            MonkeyToken::False => "FALSE"@,
            MonkeyToken::If => "IF"@,
            MonkeyToken::Else => "ELSE"@,
            MonkeyToken::Return => "RETURN"@,
        }
    }

    fn literal(&self) -> (r: String) {
        match self {
            MonkeyToken::Illegal => "ILLEGAL".to_string(),
            MonkeyToken::EOF => "EOF".to_string(),
            MonkeyToken::Ident(ident) => ident.clone(),
            MonkeyToken::Int(value) => render_int(*value),
            MonkeyToken::Assign => "=".to_string(),
            MonkeyToken::Plus => "+".to_string(),
            MonkeyToken::Minus => "-".to_string(),
            MonkeyToken::Bang => "!".to_string(),
            MonkeyToken::Asteriks => "*".to_string(),
            MonkeyToken::Slash => "/".to_string(),
            MonkeyToken::LT => "<".to_string(),
            MonkeyToken::GT => ">".to_string(),
            MonkeyToken::Eq => "==".to_string(),
            MonkeyToken::NotEq => "!=".to_string(),
            MonkeyToken::Comma => ",".to_string(),
            MonkeyToken::Semicolon => ";".to_string(),
            MonkeyToken::LParen => "(".to_string(),
            MonkeyToken::RParen => ")".to_string(),
            MonkeyToken::LBrace => "{".to_string(),
            MonkeyToken::RBrace => "}".to_string(),
            MonkeyToken::Function => "FUNCTION".to_string(),
            MonkeyToken::Let => "LET".to_string(),
            MonkeyToken::True => "TRUE".to_string(),
            MonkeyToken::False => "FALSE".to_string(),
            MonkeyToken::If => "IF".to_string(),
            MonkeyToken::Else => "ELSE".to_string(),
            MonkeyToken::Return => "RETURN".to_string(),
        }
    }
}

/// The reserved lexemes of the language and their tokens.
pub open spec fn monkey_reserved(s: Seq<char>) -> Option<MonkeyToken> {
    if s == seq!['=', '='] {
        Some(MonkeyToken::Eq)
    } else if s == seq!['='] {
        Some(MonkeyToken::Assign)
    } else if s == seq!['!', '='] {
        Some(MonkeyToken::NotEq)
    } else if s == seq!['!'] {
        Some(MonkeyToken::Bang)
    } else if s == seq!['+'] {
        Some(MonkeyToken::Plus)
    } else if s == seq!['-'] {
        Some(MonkeyToken::Minus)
    } else if s == seq!['/'] {
        Some(MonkeyToken::Slash)
    } else if s == seq!['*'] {
        Some(MonkeyToken::Asteriks)
    } else if s == seq!['<'] {
        Some(MonkeyToken::LT)
    } else if s == seq!['>'] {
        Some(MonkeyToken::GT)
    } else if s == seq![';'] {
        Some(MonkeyToken::Semicolon)
    } else if s == seq!['('] {
        Some(MonkeyToken::LParen)
    } else if s == seq![')'] {
        Some(MonkeyToken::RParen)
    } else if s == seq!['{'] {
        Some(MonkeyToken::LBrace)
    } else if s == seq!['}'] {
        Some(MonkeyToken::RBrace)
    } else if s == seq![','] {
        Some(MonkeyToken::Comma)
    } else if s == seq!['f', 'n'] {
        Some(MonkeyToken::Function)
    } else if s == seq!['l', 'e', 't'] {
        Some(MonkeyToken::Let)
    } else if s == seq!['t', 'r', 'u', 'e'] {
        Some(MonkeyToken::True)
    } else if s == seq!['f', 'a', 'l', 's', 'e'] {
        Some(MonkeyToken::False)
    } else if s == seq!['i', 'f'] {
        Some(MonkeyToken::If)
    } else if s == seq!['e', 'l', 's', 'e'] {
        Some(MonkeyToken::Else)
    } else if s == seq!['r', 'e', 't', 'u', 'r', 'n'] {
        Some(MonkeyToken::Return)
    } else {
        None
    }
}

/// The token of a lexeme: a reserved one, else a number where the lexeme
/// reads as an `isize`, else an identifier holding the lexeme.
pub open spec fn monkey_token_for(s: Seq<char>, t: MonkeyToken) -> bool {
    match monkey_reserved(s) {
        Some(k) => t == k,
        None => match int_value(s) {
            Some(v) => t == MonkeyToken::Int(v as isize),
            None => match t {
                MonkeyToken::Ident(x) => x@ == s,
                _ => false,
            },
        },
    }
}

pub open spec fn monkey_white_space(ch: char) -> bool {
    ch == ' ' || ch == '\t' || ch == '\n' || ch == '\r'
}

pub open spec fn monkey_letter(ch: char) -> bool {
    ('a' <= ch && ch <= 'z') || ('A' <= ch && ch <= 'Z') || ch == '_'
}

pub open spec fn monkey_symbol_char(ch: char) -> bool {
    ch == '=' || ch == '+' || ch == '-' || ch == '!' || ch == '/' || ch == '*' || ch == '<' || ch
        == '>' || ch == ';' || ch == '(' || ch == ')' || ch == '{' || ch == '}' || ch == ','
}

/// The grammar of the C-like language.
pub struct MonkeyTokenizer {}

pub type MonkeyLexer<'a> = Lexer<'a, MonkeyToken, MonkeyTokenizer>;

impl MonkeyTokenizer {
    pub fn is_digit(ch: char) -> (r: bool)
        ensures
            r == is_ascii_digit(ch),
    {
        '0' <= ch && ch <= '9'
    }

    pub fn is_letter(ch: char) -> (r: bool)
        ensures
            r == monkey_letter(ch),
    {
        'a' <= ch && ch <= 'z' || 'A' <= ch && ch <= 'Z' || ch == '_'
    }
}

impl Tokenize<MonkeyToken> for MonkeyTokenizer {
    open spec fn whitespace(&self, ch: char) -> bool {
        monkey_white_space(ch)
    }

    open spec fn symbol_start(&self, ch: char, next: char) -> bool {
        monkey_symbol_char(ch)
    }

    /// Only `=` and `!` grow, and only by a following `=`.
    open spec fn symbol_part(&self, ch: char, next: char, s: Seq<char>) -> bool {
        (s == seq!['='] || s == seq!['!']) && ch == '='
    }

    open spec fn numeric_start(&self, ch: char, next: char) -> bool {
        is_ascii_digit(ch)
    }

    open spec fn numeric_part(&self, ch: char, next: char, s: Seq<char>) -> bool {
        is_ascii_digit(ch)
    }

    open spec fn identifier_start(&self, ch: char, next: char) -> bool {
        monkey_letter(ch)
    }

    open spec fn identifier_part(&self, ch: char, next: char, s: Seq<char>) -> bool {
        monkey_letter(ch)
    }

    open spec fn token_for(&self, s: Seq<char>, t: MonkeyToken) -> bool {
        monkey_token_for(s, t)
    }

    open spec fn end_token(&self) -> MonkeyToken {
        MonkeyToken::EOF
    }

    open spec fn illegal_token(&self) -> MonkeyToken {
        MonkeyToken::Illegal
    }

    fn is_whitespace_character(&self, ch: char) -> (r: bool) {
        ch == ' ' || ch == '\t' || ch == '\n' || ch == '\r'
    }

    fn is_symbol_start_character(&self, ch: char, next: char) -> (r: bool) {
        ch == '=' || ch == '+' || ch == '-' || ch == '!' || ch == '/' || ch == '*' || ch == '<'
            || ch == '>' || ch == ';' || ch == '(' || ch == ')' || ch == '{' || ch == '}' || ch
            == ','
    }

    fn is_symbol_part_character(&self, ch: char, next: char, s: &str) -> (r: bool) {
        proof {
            reveal_strlit("=");
            assert("="@ =~= seq!['=']);
            reveal_strlit("!");
            assert("!"@ =~= seq!['!']);
        }
        if text_is(s, "=") {
            ch == '='
        } else if text_is(s, "!") {
            ch == '='
        } else {
            false
        }
    }

    fn is_numeric_start_character(&self, ch: char, next: char) -> (r: bool) {
        Self::is_digit(ch)
    }

    fn is_numeric_part_character(&self, ch: char, next: char, s: &str) -> (r: bool) {
        Self::is_digit(ch)
    }

    fn is_identifier_start_character(&self, ch: char, next: char) -> (r: bool) {
        Self::is_letter(ch)
    }

    fn is_identifier_part_character(&self, ch: char, next: char, s: &str) -> (r: bool) {
        Self::is_letter(ch)
    }

    fn to_token(&self, s: &str) -> (r: MonkeyToken) {
        monkey_to_token(s)
    }

    fn end_of_file_token(&self) -> (r: MonkeyToken) {
        MonkeyToken::EOF
    }

    fn error_token(&self) -> (r: MonkeyToken) {
        MonkeyToken::Illegal
    }
}

fn monkey_to_token(s: &str) -> (r: MonkeyToken)
    ensures
        monkey_token_for(s@, r),
{
    proof {
        reveal_strlit("==");
        assert("=="@ =~= seq!['=', '=']);
        reveal_strlit("=");
        assert("="@ =~= seq!['=']);
        reveal_strlit("!=");
        assert("!="@ =~= seq!['!', '=']);
        reveal_strlit("!");
        assert("!"@ =~= seq!['!']);
        reveal_strlit("+");
        assert("+"@ =~= seq!['+']);
        reveal_strlit("-");
        assert("-"@ =~= seq!['-']);
        reveal_strlit("/");
        assert("/"@ =~= seq!['/']);
        reveal_strlit("*");
        assert("*"@ =~= seq!['*']);
        reveal_strlit("<");
        assert("<"@ =~= seq!['<']);
        reveal_strlit(">");
        assert(">"@ =~= seq!['>']);
        reveal_strlit(";");
        assert(";"@ =~= seq![';']);
        reveal_strlit("(");
        assert("("@ =~= seq!['(']);
        reveal_strlit(")");
        assert(")"@ =~= seq![')']);
        reveal_strlit("{");
        assert("{"@ =~= seq!['{']);
        reveal_strlit("}");
        assert("}"@ =~= seq!['}']);
        reveal_strlit(",");
        assert(","@ =~= seq![',']);
        reveal_strlit("fn");
        assert("fn"@ =~= seq!['f', 'n']);
        reveal_strlit("let");
        assert("let"@ =~= seq!['l', 'e', 't']);
        reveal_strlit("true");
        assert("true"@ =~= seq!['t', 'r', 'u', 'e']);
        reveal_strlit("false");
        assert("false"@ =~= seq!['f', 'a', 'l', 's', 'e']);
        reveal_strlit("if");
        assert("if"@ =~= seq!['i', 'f']);
        reveal_strlit("else");
        assert("else"@ =~= seq!['e', 'l', 's', 'e']);
        reveal_strlit("return");
        assert("return"@ =~= seq!['r', 'e', 't', 'u', 'r', 'n']);
    }
    if text_is(s, "==") {
        MonkeyToken::Eq
    } else if text_is(s, "=") {
        MonkeyToken::Assign
    } else if text_is(s, "!=") {
        MonkeyToken::NotEq
    } else if text_is(s, "!") {
        MonkeyToken::Bang
    } else if text_is(s, "+") {
        MonkeyToken::Plus
    } else if text_is(s, "-") {
        MonkeyToken::Minus
    } else if text_is(s, "/") {
        MonkeyToken::Slash
    } else if text_is(s, "*") {
        MonkeyToken::Asteriks
    } else if text_is(s, "<") {
        MonkeyToken::LT
    } else if text_is(s, ">") {
        MonkeyToken::GT
    } else if text_is(s, ";") {
        MonkeyToken::Semicolon
    } else if text_is(s, "(") {
        MonkeyToken::LParen
    } else if text_is(s, ")") {
        MonkeyToken::RParen
    } else if text_is(s, "{") {
        MonkeyToken::LBrace
    } else if text_is(s, "}") {
        MonkeyToken::RBrace
    } else if text_is(s, ",") {
        MonkeyToken::Comma
    } else if text_is(s, "fn") {
        MonkeyToken::Function
    } else if text_is(s, "let") {
        MonkeyToken::Let
    } else if text_is(s, "true") {
        MonkeyToken::True
    } else if text_is(s, "false") {
        MonkeyToken::False
    } else if text_is(s, "if") {
        MonkeyToken::If
    } else if text_is(s, "else") {
        MonkeyToken::Else
    } else if text_is(s, "return") {
        MonkeyToken::Return
    } else {
        assert(monkey_reserved(s@) is None);
        match parse_int(s) {
            Some(value) => MonkeyToken::Int(value),
            None => MonkeyToken::Ident(s.to_string()),
        }
    }
}

proof fn lemma_single_symbol(w: Seq<char>)
    requires
        w.len() == 1,
        monkey_symbol_char(w[0]),
    ensures
        ({
            let tz = (MonkeyTokenizer {});
            &&& forall|t: MonkeyToken| MonkeyLexer::yields(tz, w, 0, t) <==> monkey_token_for(w, t)
            &&& MonkeyLexer::next_pos(tz, w, 0) == w.len()
            &&& MonkeyLexer::ends_at(tz, w, w.len() as int)
            &&& MonkeyLexer::next_pos(tz, w, w.len() as int) == w.len()
        }),
{
    let tz = MonkeyTokenizer {};
    assert(MonkeyLexer::category_at(tz, w, 0) == Some(Category::Symbol));
    assert(MonkeyLexer::lexeme_end(tz, Category::Symbol, w, 0, 1) == 1);
    MonkeyLexer::lemma_single_lexeme(tz, w, 1, Category::Symbol);
    assert(w.subrange(0, 1) =~= w);
}

proof fn lemma_operator_pair(w: Seq<char>)
    requires
        w.len() == 2,
        w[0] == '=' || w[0] == '!',
        w[1] == '=',
    ensures
        ({
            let tz = (MonkeyTokenizer {});
            &&& forall|t: MonkeyToken| MonkeyLexer::yields(tz, w, 0, t) <==> monkey_token_for(w, t)
            &&& MonkeyLexer::next_pos(tz, w, 0) == w.len()
            &&& MonkeyLexer::ends_at(tz, w, w.len() as int)
            &&& MonkeyLexer::next_pos(tz, w, w.len() as int) == w.len()
        }),
{
    let tz = MonkeyTokenizer {};
    assert(MonkeyLexer::category_at(tz, w, 0) == Some(Category::Symbol));
    if w[0] == '=' {
        assert(w.subrange(0, 1) =~= seq!['=']);
    } else {
        assert(w.subrange(0, 1) =~= seq!['!']);
    }
    MonkeyLexer::lemma_run_end(tz, Category::Symbol, w, 0, 1, 2);
    MonkeyLexer::lemma_single_lexeme(tz, w, 2, Category::Symbol);
    assert(w.subrange(0, 2) =~= w);
}

proof fn lemma_word(w: Seq<char>)
    requires
        w.len() > 0,
        forall|k: int| 0 <= k < w.len() ==> 'a' <= #[trigger] w[k] && w[k] <= 'z',
    ensures
        ({
            let tz = (MonkeyTokenizer {});
            &&& forall|t: MonkeyToken| MonkeyLexer::yields(tz, w, 0, t) <==> monkey_token_for(w, t)
            &&& MonkeyLexer::next_pos(tz, w, 0) == w.len()
            &&& MonkeyLexer::ends_at(tz, w, w.len() as int)
            &&& MonkeyLexer::next_pos(tz, w, w.len() as int) == w.len()
        }),
{
    let tz = MonkeyTokenizer {};
    let n = w.len() as int;
    assert('a' <= w[0] && w[0] <= 'z');
    assert(MonkeyLexer::category_at(tz, w, 0) == Some(Category::Identifier));
    assert forall|k: int| 1 <= k < n implies MonkeyLexer::continues(
        tz,
        Category::Identifier,
        #[trigger] w[k],
        char_at(w, k + 1),
        w.subrange(0, k),
    ) by {
        assert('a' <= w[k] && w[k] <= 'z');
    }
    MonkeyLexer::lemma_run_end(tz, Category::Identifier, w, 0, 1, n);
    MonkeyLexer::lemma_single_lexeme(tz, w, n, Category::Identifier);
    assert(w.subrange(0, n) =~= w);
}

proof fn lemma_reserved_lexeme(w: Seq<char>)
    requires
        monkey_reserved(w) is Some,
    ensures
        ({
            let tz = (MonkeyTokenizer {});
            &&& forall|t: MonkeyToken| MonkeyLexer::yields(tz, w, 0, t) <==> monkey_token_for(w, t)
            &&& MonkeyLexer::next_pos(tz, w, 0) == w.len()
            &&& MonkeyLexer::ends_at(tz, w, w.len() as int)
            &&& MonkeyLexer::next_pos(tz, w, w.len() as int) == w.len()
        }),
{
    if w == seq!['=', '='] {
        lemma_operator_pair(w);
    } else if w == seq!['='] {
        lemma_single_symbol(w);
    } else if w == seq!['!', '='] {
        lemma_operator_pair(w);
    } else if w == seq!['!'] {
        lemma_single_symbol(w);
    } else if w == seq!['+'] {
        lemma_single_symbol(w);
    } else if w == seq!['-'] {
        lemma_single_symbol(w);
    } else if w == seq!['/'] {
        lemma_single_symbol(w);
    } else if w == seq!['*'] {
        lemma_single_symbol(w);
    } else if w == seq!['<'] {
        lemma_single_symbol(w);
    } else if w == seq!['>'] {
        lemma_single_symbol(w);
    } else if w == seq![';'] {
        lemma_single_symbol(w);
    } else if w == seq!['('] {
        lemma_single_symbol(w);
    } else if w == seq![')'] {
        lemma_single_symbol(w);
    } else if w == seq!['{'] {
        lemma_single_symbol(w);
    } else if w == seq!['}'] {
        lemma_single_symbol(w);
    } else if w == seq![','] {
        lemma_single_symbol(w);
    } else if w == seq!['f', 'n'] {
        lemma_word(w);
    } else if w == seq!['l', 'e', 't'] {
        lemma_word(w);
    } else if w == seq!['t', 'r', 'u', 'e'] {
        lemma_word(w);
    } else if w == seq!['f', 'a', 'l', 's', 'e'] {
        lemma_word(w);
    } else if w == seq!['i', 'f'] {
        lemma_word(w);
    } else if w == seq!['e', 'l', 's', 'e'] {
        lemma_word(w);
    } else if w == seq!['r', 'e', 't', 'u', 'r', 'n'] {
        lemma_word(w);
    }
}

/// Scanning a reserved lexeme alone gives its token and then the end of
/// input.
pub proof fn lemma_reserved_scan(w: Seq<char>)
    requires
        monkey_reserved(w) is Some,
    ensures
        ({
            let tz = (MonkeyTokenizer {});
            &&& forall|t: MonkeyToken|
                MonkeyLexer::yields(tz, w, 0, t) <==> t == monkey_reserved(w)->0
            &&& MonkeyLexer::next_pos(tz, w, 0) == w.len()
            &&& MonkeyLexer::ends_at(tz, w, w.len() as int)
            &&& MonkeyLexer::next_pos(tz, w, w.len() as int) == w.len()
        }),
{
    let tz = MonkeyTokenizer {};
    lemma_reserved_lexeme(w);
    assert forall|t: MonkeyToken| MonkeyLexer::yields(tz, w, 0, t) <==> t == monkey_reserved(w)->0 by {
        assert(MonkeyLexer::yields(tz, w, 0, t) <==> monkey_token_for(w, t));
    }
}

/// A run of decimal digits scans as one number of its value, then the end
/// of input, where the value fits in `isize`.
pub proof fn lemma_digits_scan(d: Seq<char>)
    requires
        d.len() > 0,
        all_digits(d),
        digits_value(d) <= isize::MAX,
    ensures
        ({
            let tz = (MonkeyTokenizer {});
            &&& forall|t: MonkeyToken|
                MonkeyLexer::yields(tz, d, 0, t) <==> t == MonkeyToken::Int(digits_value(d) as isize)
            &&& MonkeyLexer::next_pos(tz, d, 0) == d.len()
            &&& MonkeyLexer::ends_at(tz, d, d.len() as int)
            &&& MonkeyLexer::next_pos(tz, d, d.len() as int) == d.len()
        }),
{
    let tz = MonkeyTokenizer {};
    let n = d.len() as int;
    assert(is_ascii_digit(d[0]));
    assert(MonkeyLexer::category_at(tz, d, 0) == Some(Category::Numeric));
    assert forall|k: int| 1 <= k < n implies MonkeyLexer::continues(
        tz,
        Category::Numeric,
        #[trigger] d[k],
        char_at(d, k + 1),
        d.subrange(0, k),
    ) by {
        assert(is_ascii_digit(d[k]));
    }
    MonkeyLexer::lemma_run_end(tz, Category::Numeric, d, 0, 1, n);
    MonkeyLexer::lemma_single_lexeme(tz, d, n, Category::Numeric);
    assert(d.subrange(0, n) =~= d);
    assert(monkey_reserved(d) is None);
    assert(int_value(d) == Some(digits_value(d) as int));
    assert forall|t: MonkeyToken|
        MonkeyLexer::yields(tz, d, 0, t) <==> t == MonkeyToken::Int(digits_value(d) as isize) by {
        assert(MonkeyLexer::yields(tz, d, 0, t) <==> monkey_token_for(d, t));
    }
}

/// No lexeme maps to the end-of-input token.
proof fn lemma_lexeme_is_not_end(w: Seq<char>)
    ensures
        !monkey_token_for(w, MonkeyToken::EOF),
{
    if monkey_reserved(w) is Some {
        assert(monkey_reserved(w)->0 != MonkeyToken::EOF);
    }
}

/// The end-of-input token comes only from a call that reaches the end of
/// input, and every later call gives it again.
pub proof fn lemma_end_token_repeats(s: Seq<char>, p: int)
    requires
        0 <= p <= s.len(),
        MonkeyLexer::yields((MonkeyTokenizer {}), s, p, MonkeyToken::EOF),
    ensures
        MonkeyLexer::ends_at((MonkeyTokenizer {}), s, p),
        forall|n: nat, t: MonkeyToken|
            #[trigger] MonkeyLexer::yields((MonkeyTokenizer {}), s, MonkeyLexer::pos_after((MonkeyTokenizer {}), s, p, n), t)
                <==> t == MonkeyToken::EOF,
{
    let tz = MonkeyTokenizer {};
    let i = MonkeyLexer::whitespace_end(tz, s, p);
    match MonkeyLexer::category_at(tz, s, i) {
        Some(c) => {
            lemma_lexeme_is_not_end(s.subrange(i, MonkeyLexer::lexeme_end(tz, c, s, i, i + 1)));
        },
        None => {},
    }
    MonkeyLexer::lemma_end_is_final(tz, s, p);
}

} // verus!
