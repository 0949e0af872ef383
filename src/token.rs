use vstd::prelude::*;

verus! {

/// A token value that can show itself as text.
pub trait Token: Sized {
    /// The text that `literal` returns.
    spec fn literal_text(&self) -> Seq<char>;

    fn literal(&self) -> (r: String)
        ensures
            r@ == self.literal_text(),
    ;
}

/// The lexical grammar of one language: how characters are classified and
/// how a finished lexeme becomes a token.
pub trait Tokenize<T: Token> {
    spec fn whitespace(&self, ch: char) -> bool;

    spec fn symbol_start(&self, ch: char, next: char) -> bool;

    spec fn symbol_part(&self, ch: char, next: char, s: Seq<char>) -> bool;

    spec fn numeric_start(&self, ch: char, next: char) -> bool;

    spec fn numeric_part(&self, ch: char, next: char, s: Seq<char>) -> bool;

    spec fn identifier_start(&self, ch: char, next: char) -> bool;

    spec fn identifier_part(&self, ch: char, next: char, s: Seq<char>) -> bool;

    /// Whether `t` is the token for the lexeme `s`.
    spec fn token_for(&self, s: Seq<char>, t: T) -> bool;

    spec fn end_token(&self) -> T;

    spec fn illegal_token(&self) -> T;

    fn is_whitespace_character(&self, ch: char) -> (r: bool)
        ensures
            r == self.whitespace(ch),
    ;

    fn is_symbol_start_character(&self, ch: char, next: char) -> (r: bool)
        ensures
            r == self.symbol_start(ch, next),
    ;

    fn is_symbol_part_character(&self, ch: char, next: char, s: &str) -> (r: bool)
        ensures
            r == self.symbol_part(ch, next, s@),
    ;

    fn is_numeric_start_character(&self, ch: char, next: char) -> (r: bool)
        ensures
            r == self.numeric_start(ch, next),
    ;

    fn is_numeric_part_character(&self, ch: char, next: char, s: &str) -> (r: bool)
        ensures
            r == self.numeric_part(ch, next, s@),
    ;

    fn is_identifier_start_character(&self, ch: char, next: char) -> (r: bool)
        ensures
            r == self.identifier_start(ch, next),
    ;

    fn is_identifier_part_character(&self, ch: char, next: char, s: &str) -> (r: bool)
        ensures
            r == self.identifier_part(ch, next, s@),
    ;

    fn to_token(&self, s: &str) -> (r: T)
        ensures
            self.token_for(s@, r),
    ;

    fn end_of_file_token(&self) -> (r: T)
        ensures
            r == self.end_token(),
    ;

    fn error_token(&self) -> (r: T)
        ensures
            r == self.illegal_token(),
    ;
}

} // verus!
