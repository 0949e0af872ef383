use vstd::prelude::*;

use crate::lexer::{Category, Lexer};
use crate::text::{all_digits, char_at, decimal_text, digits_value, int_value, is_ascii_digit, parse_int, render_int, text_is};
use crate::token::{Token, Tokenize};

verus! {

broadcast use vstd::string::to_string_from_display_ensures_for_str;

/// Tokens of a small parenthesised language whose operators must be
/// followed by a space.
#[derive(Debug, PartialEq)]
pub enum BasicToken {
    Illegal,
    EOF,
    Name(String),
    Number(isize),
    Plus,
    Minus,
    Asteriks,
    Slash,
    LT,
    GT,
    Eq,
    Print,
    Semicolon,
    LParen,
    RParen,
    Define,
    If,
    While,
    SetVar,
    Begin,
}

impl Token for BasicToken {
    open spec fn literal_text(&self) -> Seq<char> {
        match self {
            BasicToken::Illegal => "ILLEGAL"@,
            BasicToken::EOF => "EOF"@,
            BasicToken::Name(ident) => ident@,
            BasicToken::Number(value) => decimal_text(*value as int),
            BasicToken::Plus => "+"@,
            BasicToken::Minus => "-"@,
            BasicToken::Asteriks => "*"@,
            BasicToken::Slash => "/"@,
            BasicToken::LT => "<"@,
            BasicToken::GT => ">"@,
            BasicToken::Eq => "="@,
            BasicToken::Print => "PRINT"@,
            BasicToken::LParen => "("@,
            BasicToken::RParen => ")"@,
            BasicToken::Define => "DEFINE"@,
            BasicToken::If => "IF"@,
            BasicToken::While => "WHILE"@,
            BasicToken::SetVar => "SET"@,
            BasicToken::Begin => "BEGIN"@,
            BasicToken::Semicolon => ";"@,
        }
    }

    fn literal(&self) -> (r: String) {
        match self {
            BasicToken::Illegal => "ILLEGAL".to_string(),
            BasicToken::EOF => "EOF".to_string(),
            BasicToken::Name(ident) => ident.clone(),
            BasicToken::Number(value) => render_int(*value),
            BasicToken::Plus => "+".to_string(),
            BasicToken::Minus => "-".to_string(),
            BasicToken::Asteriks => "*".to_string(),
            BasicToken::Slash => "/".to_string(),
            BasicToken::LT => "<".to_string(),
            BasicToken::GT => ">".to_string(),
            BasicToken::Eq => "=".to_string(),
            BasicToken::Print => "PRINT".to_string(),
            BasicToken::LParen => "(".to_string(),
            BasicToken::RParen => ")".to_string(),
            BasicToken::Define => "DEFINE".to_string(),
            BasicToken::If => "IF".to_string(),
            BasicToken::While => "WHILE".to_string(),
            BasicToken::SetVar => "SET".to_string(),
            BasicToken::Begin => "BEGIN".to_string(),
            BasicToken::Semicolon => ";".to_string(),
        }
    }
}

/// The reserved lexemes of the language and their tokens.
pub open spec fn basic_reserved(s: Seq<char>) -> Option<BasicToken> {
    if s == seq!['='] {
        Some(BasicToken::Eq)
    } else if s == seq!['+'] {
        Some(BasicToken::Plus)
    } else if s == seq!['-'] {
        Some(BasicToken::Minus)
    } else if s == seq!['/'] {
        Some(BasicToken::Slash)
    } else if s == seq!['*'] {
        Some(BasicToken::Asteriks)
    } else if s == seq!['<'] {
        Some(BasicToken::LT)
    } else if s == seq!['>'] {
        Some(BasicToken::GT)
    } else if s == seq![';'] {
        Some(BasicToken::Semicolon)
    } else if s == seq!['('] {
        Some(BasicToken::LParen)
    } else if s == seq![')'] {
        Some(BasicToken::RParen)
    } else if s == seq!['p', 'r', 'i', 'n', 't'] {
        Some(BasicToken::Print)
    } else if s == seq!['d', 'e', 'f', 'i', 'n', 'e'] {
        Some(BasicToken::Define)
    } else if s == seq!['i', 'f'] {
        Some(BasicToken::If)
    } else if s == seq!['w', 'h', 'i', 'l', 'e'] {
        Some(BasicToken::While)
    } else if s == seq!['s', 'e', 't'] {
        Some(BasicToken::SetVar)
    } else if s == seq!['b', 'e', 'g', 'i', 'n'] {
        Some(BasicToken::Begin)
    } else {
        None
    }
}

/// The token of a lexeme: a reserved one, else a number where the lexeme
/// reads as an `isize`, else a name holding the lexeme.
pub open spec fn basic_token_for(s: Seq<char>, t: BasicToken) -> bool {
    match basic_reserved(s) {
        Some(k) => t == k,
        None => match int_value(s) {
            Some(v) => t == BasicToken::Number(v as isize),
            None => match t {
                BasicToken::Name(x) => x@ == s,
                _ => false,
            },
        },
    }
}

pub open spec fn basic_white_space(ch: char) -> bool {
    ch == ' ' || ch == '\t' || ch == '\n' || ch == '\r'
}

/// Characters that may stand in a name: all but digits, whitespace,
/// parentheses, `;` and the null sentinel.
pub open spec fn basic_name_char(ch: char) -> bool {
    !is_ascii_digit(ch) && !basic_white_space(ch) && ch != '(' && ch != ')' && ch != ';' && ch
        != '\0'
}

pub open spec fn basic_operator(ch: char) -> bool {
    ch == '=' || ch == '+' || ch == '-' || ch == '/' || ch == '*' || ch == '<' || ch == '>'
}

/// The grammar of the parenthesised language.
pub struct BasicTokenizer {}

pub type BasicLexer<'a> = Lexer<'a, BasicToken, BasicTokenizer>;

impl BasicTokenizer {
    pub fn is_digit(ch: char) -> (r: bool)
        ensures
            r == is_ascii_digit(ch),
    {
        '0' <= ch && ch <= '9'
    }

    pub fn is_name(ch: char) -> (r: bool)
        ensures
            r == basic_name_char(ch),
    {
        !Self::is_digit(ch) && !Self::is_white_space(ch) && ch != '(' && ch != ')' && ch != ';'
            && ch != '\0'
    }

    pub fn is_white_space(ch: char) -> (r: bool)
        ensures
            r == basic_white_space(ch),
    {
        ch == ' ' || ch == '\t' || ch == '\n' || ch == '\r'
    }
}

impl Tokenize<BasicToken> for BasicTokenizer {
    open spec fn whitespace(&self, ch: char) -> bool {
        basic_white_space(ch)
    }

    /// Parentheses always start a symbol; an operator only where a space
    /// follows it.
    open spec fn symbol_start(&self, ch: char, next: char) -> bool {
        ch == '(' || ch == ')' || (basic_operator(ch) && next == ' ')
    }

    open spec fn symbol_part(&self, ch: char, next: char, s: Seq<char>) -> bool {
        false
    }

    /// A digit, or a minus sign followed by a digit.
    open spec fn numeric_start(&self, ch: char, next: char) -> bool {
        is_ascii_digit(ch) || (ch == '-' && is_ascii_digit(next))
    }

    open spec fn numeric_part(&self, ch: char, next: char, s: Seq<char>) -> bool {
        is_ascii_digit(ch)
    }

    open spec fn identifier_start(&self, ch: char, next: char) -> bool {
        basic_name_char(ch)
    }

    open spec fn identifier_part(&self, ch: char, next: char, s: Seq<char>) -> bool {
        basic_name_char(ch)
    }

    open spec fn token_for(&self, s: Seq<char>, t: BasicToken) -> bool {
        basic_token_for(s, t)
    }

    open spec fn end_token(&self) -> BasicToken {
        BasicToken::EOF
    }

    open spec fn illegal_token(&self) -> BasicToken {
        BasicToken::Illegal
    }

    fn is_whitespace_character(&self, ch: char) -> (r: bool) {
        Self::is_white_space(ch)
    }

    fn is_symbol_start_character(&self, ch: char, next: char) -> (r: bool) {
        ch == '(' || ch == ')' || ((ch == '=' || ch == '+' || ch == '-' || ch == '/' || ch == '*'
            || ch == '<' || ch == '>') && next == ' ')
    }

    fn is_symbol_part_character(&self, ch: char, next: char, s: &str) -> (r: bool) {
        false
    }

    fn is_numeric_start_character(&self, ch: char, next: char) -> (r: bool) {
        Self::is_digit(ch) || ch == '-' && Self::is_digit(next)
    }

    fn is_numeric_part_character(&self, ch: char, next: char, s: &str) -> (r: bool) {
        Self::is_digit(ch)
    }

    fn is_identifier_start_character(&self, ch: char, next: char) -> (r: bool) {
        Self::is_name(ch)
    }

    fn is_identifier_part_character(&self, ch: char, next: char, s: &str) -> (r: bool) {
        Self::is_name(ch)
    }

    fn to_token(&self, s: &str) -> (r: BasicToken) {
        basic_to_token(s)
    }

    fn end_of_file_token(&self) -> (r: BasicToken) {
        BasicToken::EOF
    }

    fn error_token(&self) -> (r: BasicToken) {
        BasicToken::Illegal
    }
}

fn basic_to_token(s: &str) -> (r: BasicToken)
    ensures
        basic_token_for(s@, r),
{
    proof {
        reveal_strlit("=");
        assert("="@ =~= seq!['=']);
        reveal_strlit("+");
        assert("+"@ =~= seq!['+']);
        reveal_strlit("-");
        assert("-"@ =~= seq!['-']);
        reveal_strlit("/");
        assert("/"@ =~= seq!['/']);
        reveal_strlit("*");
        assert("*"@ =~= seq!['*']);
        reveal_strlit("<");
        assert("<"@ =~= seq!['<']);
        reveal_strlit(">");
        assert(">"@ =~= seq!['>']);
        reveal_strlit(";");
        assert(";"@ =~= seq![';']);
        reveal_strlit("(");
        assert("("@ =~= seq!['(']);
        reveal_strlit(")");
        assert(")"@ =~= seq![')']);
        reveal_strlit("print");
        assert("print"@ =~= seq!['p', 'r', 'i', 'n', 't']);
        reveal_strlit("define");
        assert("define"@ =~= seq!['d', 'e', 'f', 'i', 'n', 'e']);
        reveal_strlit("if");
        assert("if"@ =~= seq!['i', 'f']);
        reveal_strlit("while");
        assert("while"@ =~= seq!['w', 'h', 'i', 'l', 'e']);
        reveal_strlit("set");
        assert("set"@ =~= seq!['s', 'e', 't']);
        reveal_strlit("begin");
        assert("begin"@ =~= seq!['b', 'e', 'g', 'i', 'n']);
    }
    if text_is(s, "=") {
        BasicToken::Eq
    } else if text_is(s, "+") {
        BasicToken::Plus
    } else if text_is(s, "-") {
        BasicToken::Minus
    } else if text_is(s, "/") {
        BasicToken::Slash
    } else if text_is(s, "*") {
        BasicToken::Asteriks
    } else if text_is(s, "<") {
        BasicToken::LT
    } else if text_is(s, ">") {
        BasicToken::GT
    } else if text_is(s, ";") {
        BasicToken::Semicolon
    } else if text_is(s, "(") {
        BasicToken::LParen
    } else if text_is(s, ")") {
        BasicToken::RParen
    } else if text_is(s, "print") {
        BasicToken::Print
    } else if text_is(s, "define") {
        BasicToken::Define
    } else if text_is(s, "if") {
        BasicToken::If
    } else if text_is(s, "while") {
        BasicToken::While
    } else if text_is(s, "set") {
        BasicToken::SetVar
    } else if text_is(s, "begin") {
        BasicToken::Begin
    } else {
        assert(basic_reserved(s@) is None);
        match parse_int(s) {
            Some(value) => BasicToken::Number(value),
            None => BasicToken::Name(s.to_string()),
        }
    }
}

proof fn lemma_operator_then_space(w: Seq<char>)
    requires
        w.len() == 1,
        basic_operator(w[0]) || w[0] == '(' || w[0] == ')',
    ensures
        ({
            let tz = (BasicTokenizer {});
            let s = w.push(' ');
            &&& forall|t: BasicToken| BasicLexer::yields(tz, s, 0, t) <==> basic_token_for(w, t)
            &&& BasicLexer::next_pos(tz, s, 0) == w.len()
            &&& BasicLexer::ends_at(tz, s, w.len() as int)
            &&& BasicLexer::next_pos(tz, s, w.len() as int) == s.len()
        }),
{
    let tz = BasicTokenizer {};
    let s = w.push(' ');
    assert(BasicLexer::category_at(tz, s, 0) == Some(Category::Symbol));
    assert(BasicLexer::lexeme_end(tz, Category::Symbol, s, 0, 1) == 1);
    BasicLexer::lemma_single_lexeme(tz, s, 1, Category::Symbol);
    assert(s.subrange(0, 1) =~= w);
}

proof fn lemma_word_then_space(w: Seq<char>)
    requires
        w.len() > 0,
        forall|k: int| 0 <= k < w.len() ==> 'a' <= #[trigger] w[k] && w[k] <= 'z',
    ensures
        ({
            let tz = (BasicTokenizer {});
            let s = w.push(' ');
            &&& forall|t: BasicToken| BasicLexer::yields(tz, s, 0, t) <==> basic_token_for(w, t)
            &&& BasicLexer::next_pos(tz, s, 0) == w.len()
            &&& BasicLexer::ends_at(tz, s, w.len() as int)
            &&& BasicLexer::next_pos(tz, s, w.len() as int) == s.len()
        }),
{
    let tz = BasicTokenizer {};
    let s = w.push(' ');
    let n = w.len() as int;
    assert(s[0] == w[0]);
    assert(BasicLexer::category_at(tz, s, 0) == Some(Category::Identifier));
    assert forall|k: int| 1 <= k < n implies BasicLexer::continues(
        tz,
        Category::Identifier,
        #[trigger] s[k],
        char_at(s, k + 1),
        s.subrange(0, k),
    ) by {
        assert(s[k] == w[k]);
    }
    BasicLexer::lemma_run_end(tz, Category::Identifier, s, 0, 1, n);
    BasicLexer::lemma_single_lexeme(tz, s, n, Category::Identifier);
    assert(s.subrange(0, n) =~= w);
}

proof fn lemma_reserved_lexeme(w: Seq<char>)
    requires
        basic_reserved(w) is Some,
        w != seq![';'],
    ensures
        ({
            let tz = (BasicTokenizer {});
            let s = w.push(' ');
            &&& forall|t: BasicToken| BasicLexer::yields(tz, s, 0, t) <==> basic_token_for(w, t)
            &&& BasicLexer::next_pos(tz, s, 0) == w.len()
            &&& BasicLexer::ends_at(tz, s, w.len() as int)
            &&& BasicLexer::next_pos(tz, s, w.len() as int) == s.len()
        }),
{
    if w == seq!['='] {
        lemma_operator_then_space(w);
    } else if w == seq!['+'] {
        lemma_operator_then_space(w);
    } else if w == seq!['-'] {
        lemma_operator_then_space(w);
    } else if w == seq!['/'] {
        lemma_operator_then_space(w);
    } else if w == seq!['*'] {
        lemma_operator_then_space(w);
    } else if w == seq!['<'] {
        lemma_operator_then_space(w);
    } else if w == seq!['>'] {
        lemma_operator_then_space(w);
    } else if w == seq!['('] {
        lemma_operator_then_space(w);
    } else if w == seq![')'] {
        lemma_operator_then_space(w);
    } else if w == seq!['p', 'r', 'i', 'n', 't'] {
        lemma_word_then_space(w);
    } else if w == seq!['d', 'e', 'f', 'i', 'n', 'e'] {
        lemma_word_then_space(w);
    } else if w == seq!['i', 'f'] {
        lemma_word_then_space(w);
    } else if w == seq!['w', 'h', 'i', 'l', 'e'] {
        lemma_word_then_space(w);
    } else if w == seq!['s', 'e', 't'] {
        lemma_word_then_space(w);
    } else if w == seq!['b', 'e', 'g', 'i', 'n'] {
        lemma_word_then_space(w);
    }
}

/// Scanning a reserved lexeme followed by a space gives its token and then
/// the end of input. `;` is left out: it is in the table, but no category
/// starts with it, so it scans as an illegal character.
pub proof fn lemma_reserved_scan(w: Seq<char>)
    requires
        basic_reserved(w) is Some,
        w != seq![';'],
    ensures
        ({
            let tz = (BasicTokenizer {});
            let s = w.push(' ');
            &&& forall|t: BasicToken|
                BasicLexer::yields(tz, s, 0, t) <==> t == basic_reserved(w)->0
            &&& BasicLexer::next_pos(tz, s, 0) == w.len()
            &&& BasicLexer::ends_at(tz, s, w.len() as int)
            &&& BasicLexer::next_pos(tz, s, w.len() as int) == s.len()
        }),
{
    let tz = BasicTokenizer {};
    let s = w.push(' ');
    lemma_reserved_lexeme(w);
    assert forall|t: BasicToken| BasicLexer::yields(tz, s, 0, t) <==> t == basic_reserved(w)->0 by {
        assert(BasicLexer::yields(tz, s, 0, t) <==> basic_token_for(w, t));
    }
}

proof fn lemma_digits_then_end(s: Seq<char>, start: int)
    requires
        0 <= start < s.len(),
        all_digits(s.subrange(start, s.len() as int)),
        BasicLexer::category_at((BasicTokenizer {}), s, 0) == Some(Category::Numeric),
        !basic_white_space(s[0]),
        s[0] != '\0',
        start <= 1,
    ensures
        ({
            let tz = (BasicTokenizer {});
            &&& forall|t: BasicToken| BasicLexer::yields(tz, s, 0, t) <==> basic_token_for(s, t)
            &&& BasicLexer::next_pos(tz, s, 0) == s.len()
            &&& BasicLexer::ends_at(tz, s, s.len() as int)
            &&& BasicLexer::next_pos(tz, s, s.len() as int) == s.len()
        }),
{
    let tz = BasicTokenizer {};
    let n = s.len() as int;
    assert forall|k: int| 1 <= k < n implies BasicLexer::continues(
        tz,
        Category::Numeric,
        #[trigger] s[k],
        char_at(s, k + 1),
        s.subrange(0, k),
    ) by {
        assert(s[k] == s.subrange(start, n)[k - start]);
    }
    BasicLexer::lemma_run_end(tz, Category::Numeric, s, 0, 1, n);
    BasicLexer::lemma_single_lexeme(tz, s, n, Category::Numeric);
    assert(s.subrange(0, n) =~= s);
}

/// A run of decimal digits scans as one number of its value, then the end
/// of input, where the value fits in `isize`.
pub proof fn lemma_digits_scan(d: Seq<char>)
    requires
        d.len() > 0,
        all_digits(d),
        digits_value(d) <= isize::MAX,
    ensures
        ({
            let tz = (BasicTokenizer {});
            &&& forall|t: BasicToken|
                BasicLexer::yields(tz, d, 0, t) <==> t == BasicToken::Number(digits_value(d) as isize)
            &&& BasicLexer::next_pos(tz, d, 0) == d.len()
            &&& BasicLexer::ends_at(tz, d, d.len() as int)
            &&& BasicLexer::next_pos(tz, d, d.len() as int) == d.len()
        }),
{
    let tz = BasicTokenizer {};
    assert(is_ascii_digit(d[0]));
    assert(d.subrange(0, d.len() as int) =~= d);
    lemma_digits_then_end(d, 0);
    assert(basic_reserved(d) is None);
    assert(int_value(d) == Some(digits_value(d) as int));
}

/// A minus sign followed by a run of decimal digits scans as one negative
/// number, not as two tokens, where the value fits in `isize`.
pub proof fn lemma_negative_digits_scan(d: Seq<char>)
    requires
        d.len() > 0,
        all_digits(d),
        digits_value(d) <= -(isize::MIN as int),
    ensures
        ({
            let tz = (BasicTokenizer {});
            let s = seq!['-'] + d;
            &&& forall|t: BasicToken|
                BasicLexer::yields(tz, s, 0, t) <==> t == BasicToken::Number(
                    (-digits_value(d)) as isize,
                )
            &&& BasicLexer::next_pos(tz, s, 0) == s.len()
            &&& BasicLexer::ends_at(tz, s, s.len() as int)
            &&& BasicLexer::next_pos(tz, s, s.len() as int) == s.len()
        }),
{
    let tz = BasicTokenizer {};
    let s = seq!['-'] + d;
    assert(is_ascii_digit(d[0]));
    assert(s[1] == d[0]);
    assert(s.subrange(1, s.len() as int) =~= d);
    lemma_digits_then_end(s, 1);
    assert(s.len() >= 2);
    assert(basic_reserved(s) is None);
    assert(s.drop_first() =~= d);
    assert(int_value(s) == Some(-digits_value(d)));
    assert forall|t: BasicToken|
        BasicLexer::yields(tz, s, 0, t) <==> t == BasicToken::Number((-digits_value(d)) as isize) by {
        assert(BasicLexer::yields(tz, s, 0, t) <==> basic_token_for(s, t));
    }
}

/// No lexeme maps to the end-of-input token.
proof fn lemma_lexeme_is_not_end(w: Seq<char>)
    ensures
        !basic_token_for(w, BasicToken::EOF),
{
    if basic_reserved(w) is Some {
        assert(basic_reserved(w)->0 != BasicToken::EOF);
    }
}

/// The end-of-input token comes only from a call that reaches the end of
/// input, and every later call gives it again.
pub proof fn lemma_end_token_repeats(s: Seq<char>, p: int)
    requires
        0 <= p <= s.len(),
        BasicLexer::yields((BasicTokenizer {}), s, p, BasicToken::EOF),
    ensures
        BasicLexer::ends_at((BasicTokenizer {}), s, p),
        forall|n: nat, t: BasicToken|
            #[trigger] BasicLexer::yields((BasicTokenizer {}), s, BasicLexer::pos_after((BasicTokenizer {}), s, p, n), t)
                <==> t == BasicToken::EOF,
{
    let tz = BasicTokenizer {};
    let i = BasicLexer::whitespace_end(tz, s, p);
    match BasicLexer::category_at(tz, s, i) {
        Some(c) => {
            lemma_lexeme_is_not_end(s.subrange(i, BasicLexer::lexeme_end(tz, c, s, i, i + 1)));
        },
        None => {},
    }
    BasicLexer::lemma_end_is_final(tz, s, p);
}

} // verus!
