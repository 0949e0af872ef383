use vstd::prelude::*;

use crate::text::char_at;
use crate::token::{Token, Tokenize};
use std::rc::Rc;

verus! {

/// The three kinds of lexeme that a grammar can start, in the order they are tried.
#[derive(Clone, Copy, PartialEq, Eq, Debug)]
pub enum Category {
    Symbol,
    Numeric,
    Identifier,
}

/// A forward-only scanner over `input`, which asks `tokenizer` how to
/// classify each character.
pub struct Lexer<'a, T, Z> {
    tokenizer: Rc<Z>,
    input: &'a str,
    length: usize,
    position: usize,
    read_position: usize,
    ch: char,
    token: core::marker::PhantomData<T>,
}

impl<'a, T: Token, Z: Tokenize<T>> Lexer<'a, T, Z> {
    /// The grammar this scanner asks.
    pub closed spec fn grammar(&self) -> Z {
        *self.tokenizer
    }

    /// The characters of the input.
    pub closed spec fn text(&self) -> Seq<char> {
        self.input@
    }

    /// Index of the current character; the input's length once it is used up.
    pub closed spec fn pos(&self) -> int {
        self.position as int
    }

    pub closed spec fn wf(&self) -> bool {
        &&& self.length == self.input@.len()
        &&& self.length < usize::MAX
        &&& self.position <= self.length
        &&& self.read_position == self.position + 1
        &&& self.ch == char_at(self.input@, self.position as int)
    }

    pub open spec fn starts(tz: Z, c: Category, ch: char, next: char) -> bool {
        match c {
            Category::Symbol => tz.symbol_start(ch, next),
            Category::Numeric => tz.numeric_start(ch, next),
            Category::Identifier => tz.identifier_start(ch, next),
        }
    }

    pub open spec fn continues(tz: Z, c: Category, ch: char, next: char, s: Seq<char>) -> bool {
        match c {
            Category::Symbol => tz.symbol_part(ch, next, s),
            Category::Numeric => tz.numeric_part(ch, next, s),
            Category::Identifier => tz.identifier_part(ch, next, s),
        }
    }

    /// The first index from `i` on that holds no whitespace (or the end of `s`).
    pub open spec fn whitespace_end(tz: Z, s: Seq<char>, i: int) -> int
        decreases s.len() - i,
    {
        if 0 <= i < s.len() && tz.whitespace(s[i]) {
            Self::whitespace_end(tz, s, i + 1)
        } else {
            i
        }
    }

    /// The category whose start predicate accepts the character at `i`, tried
    /// in priority order.
    pub open spec fn category_at(tz: Z, s: Seq<char>, i: int) -> Option<Category> {
        let ch = char_at(s, i);
        let next = char_at(s, i + 1);
        if tz.symbol_start(ch, next) {
            Some(Category::Symbol)
        } else if tz.numeric_start(ch, next) {
            Some(Category::Numeric)
        } else if tz.identifier_start(ch, next) {
            Some(Category::Identifier)
        } else {
            None
        }
    }

    /// End of the longest lexeme of category `c` that begins at `start` and
    /// already holds `s[start..j]`: it grows while the part predicate accepts
    /// the next character of the input.
    pub open spec fn lexeme_end(tz: Z, c: Category, s: Seq<char>, start: int, j: int) -> int
        decreases s.len() - j,
    {
        if 0 <= start < j < s.len() && Self::continues(
            tz,
            c,
            s[j],
            char_at(s, j + 1),
            s.subrange(start, j),
        ) {
            Self::lexeme_end(tz, c, s, start, j + 1)
        } else {
            j
        }
    }

    /// Whether the call made at position `p` reaches the end of input.
    pub open spec fn ends_at(tz: Z, s: Seq<char>, p: int) -> bool {
        char_at(s, Self::whitespace_end(tz, s, p)) == '\0'
    }

    /// Where the cursor stands after one call made at position `p`. A call
    /// that reaches the end of input (its end, or a null character) leaves
    /// the cursor there.
    pub open spec fn next_pos(tz: Z, s: Seq<char>, p: int) -> int {
        let i = Self::whitespace_end(tz, s, p);
        if char_at(s, i) == '\0' {
            i
        } else {
            match Self::category_at(tz, s, i) {
                Some(c) => Self::lexeme_end(tz, c, s, i, i + 1),
                None => i + 1,
            }
        }
    }

    /// Whether `t` is the token of one call made at position `p`.
    pub open spec fn yields(tz: Z, s: Seq<char>, p: int, t: T) -> bool {
        let i = Self::whitespace_end(tz, s, p);
        if char_at(s, i) == '\0' {
            t == tz.end_token()
        } else {
            match Self::category_at(tz, s, i) {
                Some(c) => tz.token_for(s.subrange(i, Self::lexeme_end(tz, c, s, i, i + 1)), t),
                None => t == tz.illegal_token(),
            }
        }
    }

    pub fn new(tokenizer: Rc<Z>, input: &'a str) -> (r: Self)
        requires
            input@.len() < usize::MAX,
        ensures
            r.wf(),
            r.grammar() == *tokenizer,
            r.text() == input@,
            r.pos() == 0,
    {
        let length = input.unicode_len();
        let ch = if length > 0 { input.get_char(0) } else { '\0' };
        Lexer {
            tokenizer,
            input,
            length,
            position: 0,
            read_position: 1,
            ch,
            token: core::marker::PhantomData,
        }
    }

    /// Scans and returns the next token.
    pub fn next_token(&mut self) -> (r: T)
        requires
            old(self).wf(),
        ensures
            final(self).wf(),
            final(self).grammar() == old(self).grammar(),
            final(self).text() == old(self).text(),
            final(self).pos() == Self::next_pos(old(self).grammar(), old(self).text(), old(self).pos()),
            Self::yields(old(self).grammar(), old(self).text(), old(self).pos(), r),
    {
        self.skip_whitespace();
        let token;
        if self.ch == '\0' {
            return self.tokenizer.end_of_file_token();
        } else if self.tokenizer.is_symbol_start_character(self.ch, self.peek_next_char()) {
            token = self.read_token(Category::Symbol);
        } else if self.tokenizer.is_numeric_start_character(self.ch, self.peek_next_char()) {
            token = self.read_token(Category::Numeric);
        } else if self.tokenizer.is_identifier_start_character(self.ch, self.peek_next_char()) {
            token = self.read_token(Category::Identifier);
        } else {
            token = self.tokenizer.error_token();
        }
        self.read_next_char();
        token
    }

    fn is_part(&self, c: Category, ch: char, next: char, s: &str) -> (r: bool)
        ensures
            r == Self::continues(self.grammar(), c, ch, next, s@),
    {
        match c {
            Category::Symbol => self.tokenizer.is_symbol_part_character(ch, next, s),
            Category::Numeric => self.tokenizer.is_numeric_part_character(ch, next, s),
            Category::Identifier => self.tokenizer.is_identifier_part_character(ch, next, s),
        }
    }

    /// Reads the rest of a lexeme of category `c` that begins at the current
    /// character, leaving the cursor on its last character.
    fn read_token(&mut self, c: Category) -> (r: T)
        requires
            old(self).wf(),
            old(self).pos() < old(self).text().len(),
        ensures
            final(self).wf(),
            final(self).grammar() == old(self).grammar(),
            final(self).text() == old(self).text(),
            final(self).pos() < final(self).text().len(),
            final(self).pos() + 1 == Self::lexeme_end(
                old(self).grammar(),
                c,
                old(self).text(),
                old(self).pos(),
                old(self).pos() + 1,
            ),
            old(self).grammar().token_for(
                old(self).text().subrange(old(self).pos(), final(self).pos() + 1),
                r,
            ),
    {
        let start = self.position;
        let ghost tz = self.grammar();
        let ghost s = self.text();
        while self.read_position < self.length && self.is_part(
            c,
            self.peek_next_char(),
            self.char_at_index(self.read_position + 1),
            self.input.substring_char(start, self.read_position),
        )
            invariant
                self.wf(),
                self.grammar() == tz,
                self.text() == s,
                start <= self.position < self.length,
                Self::lexeme_end(tz, c, s, start as int, self.read_position as int)
                    == Self::lexeme_end(tz, c, s, start as int, start + 1),
            decreases self.length - self.position,
        {
            self.read_next_char();
        }
        self.tokenizer.to_token(self.input.substring_char(start, self.read_position))
    }

    fn skip_whitespace(&mut self)
        requires
            old(self).wf(),
        ensures
            final(self).wf(),
            final(self).grammar() == old(self).grammar(),
            final(self).text() == old(self).text(),
            final(self).pos() == Self::whitespace_end(
                old(self).grammar(),
                old(self).text(),
                old(self).pos(),
            ),
    {
        let ghost tz = self.grammar();
        let ghost s = self.text();
        let ghost p = self.pos();
        while self.position < self.length && self.tokenizer.is_whitespace_character(self.ch)
            invariant
                self.wf(),
                self.grammar() == tz,
                self.text() == s,
                Self::whitespace_end(tz, s, self.pos()) == Self::whitespace_end(tz, s, p),
            decreases self.length - self.position,
        {
            self.read_next_char();
        }
    }

    /// Moves the cursor one character on; at the end of input it stays.
    fn read_next_char(&mut self)
        requires
            old(self).wf(),
        ensures
            final(self).wf(),
            final(self).grammar() == old(self).grammar(),
            final(self).text() == old(self).text(),
            final(self).pos() == if old(self).pos() < old(self).text().len() {
                old(self).pos() + 1
            } else {
                old(self).pos()
            },
    {
        if self.position < self.length {
            self.ch = self.peek_next_char();
            self.position = self.read_position;
            self.read_position = self.read_position + 1;
        }
    }

    fn peek_next_char(&self) -> (r: char)
        requires
            self.wf(),
        ensures
            r == char_at(self.text(), self.pos() + 1),
    {
        self.char_at_index(self.read_position)
    }

    fn char_at_index(&self, i: usize) -> (r: char)
        requires
            self.wf(),
        ensures
            r == char_at(self.text(), i as int),
    {
        if i < self.length {
            self.input.get_char(i)
        } else {
            '\0'
        }
    }

    /// Where the cursor stands after `n` calls, the first made at position `p`.
    pub open spec fn pos_after(tz: Z, s: Seq<char>, p: int, n: nat) -> int
        decreases n,
    {
        if n == 0 {
            p
        } else {
            Self::next_pos(tz, s, Self::pos_after(tz, s, p, (n - 1) as nat))
        }
    }

    /// Skipping whitespace from `i` moves forward over whitespace only and
    /// stops at or before the end of input.
    pub proof fn lemma_whitespace_end_bounds(tz: Z, s: Seq<char>, i: int)
        requires
            0 <= i <= s.len(),
        ensures
            i <= Self::whitespace_end(tz, s, i) <= s.len(),
            forall|k: int| i <= k < Self::whitespace_end(tz, s, i) ==> tz.whitespace(#[trigger] s[k]),
            Self::whitespace_end(tz, s, i) < s.len() ==> !tz.whitespace(
                s[Self::whitespace_end(tz, s, i)],
            ),
        decreases s.len() - i,
    {
        if i < s.len() && tz.whitespace(s[i]) {
            Self::lemma_whitespace_end_bounds(tz, s, i + 1);
        }
    }

    /// Input made of whitespace alone gives the end-of-input token on the
    /// first call, and on every call after it.
    pub proof fn lemma_blank_input_ends(tz: Z, s: Seq<char>)
        requires
            forall|k: int| 0 <= k < s.len() ==> tz.whitespace(#[trigger] s[k]),
        ensures
            Self::ends_at(tz, s, 0),
            forall|t: T| Self::yields(tz, s, 0, t) <==> t == tz.end_token(),
            Self::next_pos(tz, s, 0) == s.len(),
            Self::ends_at(tz, s, s.len() as int),
            Self::next_pos(tz, s, s.len() as int) == s.len(),
    {
        Self::lemma_blank_suffix(tz, s, 0);
    }

    proof fn lemma_blank_suffix(tz: Z, s: Seq<char>, i: int)
        requires
            0 <= i <= s.len(),
            forall|k: int| i <= k < s.len() ==> tz.whitespace(#[trigger] s[k]),
        ensures
            Self::whitespace_end(tz, s, i) == s.len(),
        decreases s.len() - i,
    {
        if i < s.len() {
            Self::lemma_blank_suffix(tz, s, i + 1);
        }
    }

    /// Once a call reaches the end of input, the cursor stays where it found
    /// the end, and every later call reaches the end again and gives the
    /// end-of-input token.
    pub proof fn lemma_end_is_final(tz: Z, s: Seq<char>, p: int)
        requires
            0 <= p <= s.len(),
            Self::ends_at(tz, s, p),
        ensures
            Self::next_pos(tz, s, p) == Self::whitespace_end(tz, s, p),
            forall|n: nat| n > 0 ==> #[trigger] Self::pos_after(tz, s, p, n) == Self::whitespace_end(
                tz,
                s,
                p,
            ),
            forall|n: nat| #[trigger] Self::ends_at(tz, s, Self::pos_after(tz, s, p, n)),
            forall|n: nat, t: T|
                #[trigger] Self::yields(tz, s, Self::pos_after(tz, s, p, n), t) <==> t
                    == tz.end_token(),
    {
        let i = Self::whitespace_end(tz, s, p);
        Self::lemma_whitespace_end_bounds(tz, s, p);
        assert(Self::whitespace_end(tz, s, i) == i);
        assert forall|n: nat| n > 0 implies #[trigger] Self::pos_after(tz, s, p, n) == i by {
            Self::lemma_stays_at_end(tz, s, p, i, n);
        }
        assert forall|n: nat| #[trigger] Self::ends_at(tz, s, Self::pos_after(tz, s, p, n)) by {
            if n > 0 {
                Self::lemma_stays_at_end(tz, s, p, i, n);
            }
        }
        assert forall|n: nat, t: T|
            #[trigger] Self::yields(tz, s, Self::pos_after(tz, s, p, n), t) <==> t
                == tz.end_token() by {
            if n > 0 {
                Self::lemma_stays_at_end(tz, s, p, i, n);
            }
        }
    }

    proof fn lemma_stays_at_end(tz: Z, s: Seq<char>, p: int, i: int, n: nat)
        requires
            Self::next_pos(tz, s, p) == i,
            Self::next_pos(tz, s, i) == i,
            n > 0,
        ensures
            Self::pos_after(tz, s, p, n) == i,
        decreases n,
    {
        if n > 1 {
            Self::lemma_stays_at_end(tz, s, p, i, (n - 1) as nat);
        } else {
            assert(Self::pos_after(tz, s, p, 0) == p);
        }
        assert(Self::pos_after(tz, s, p, n) == Self::next_pos(
            tz,
            s,
            Self::pos_after(tz, s, p, (n - 1) as nat),
        ));
    }

    /// A character that is not whitespace, not the null sentinel and starts no
    /// category gives one illegal token, and the cursor moves past it alone.
    pub proof fn lemma_illegal_character(tz: Z, s: Seq<char>, p: int)
        requires
            0 <= p < s.len(),
            !tz.whitespace(s[p]),
            s[p] != '\0',
            Self::category_at(tz, s, p) is None,
        ensures
            forall|t: T| Self::yields(tz, s, p, t) <==> t == tz.illegal_token(),
            Self::next_pos(tz, s, p) == p + 1,
    {
    }

    /// Over a run of characters that are each neither whitespace, nor the null
    /// sentinel, nor the start of a category, the scanner gives one illegal
    /// token per character, one after the other; the call after the run gives
    /// what a fresh scan of the rest of the input gives first.
    pub proof fn lemma_illegal_run(tz: Z, s: Seq<char>, p: int, q: int)
        requires
            0 <= p <= q <= s.len(),
            forall|k: int|
                p <= k < q ==> !tz.whitespace(#[trigger] s[k]) && s[k] != '\0'
                    && Self::category_at(tz, s, k) is None,
        ensures
            forall|n: nat|
                n <= q - p ==> #[trigger] Self::pos_after(tz, s, p, n) == p + n,
            forall|n: nat, t: T|
                n < q - p ==> (#[trigger] Self::yields(tz, s, Self::pos_after(tz, s, p, n), t)
                    <==> t == tz.illegal_token()),
            forall|t: T|
                Self::yields(tz, s, Self::pos_after(tz, s, p, (q - p) as nat), t) <==> Self::yields(
                    tz,
                    s.subrange(q, s.len() as int),
                    0,
                    t,
                ),
            Self::next_pos(tz, s, Self::pos_after(tz, s, p, (q - p) as nat)) == q + Self::next_pos(
                tz,
                s.subrange(q, s.len() as int),
                0,
            ),
    {
        Self::lemma_illegal_prefix(tz, s, p, q, (q - p) as nat);
        Self::lemma_scan_rest(tz, s, q);
        assert forall|n: nat| n <= q - p implies #[trigger] Self::pos_after(tz, s, p, n) == p + n by {
            Self::lemma_illegal_prefix(tz, s, p, q, n);
        }
        assert forall|n: nat, t: T| n < q - p implies (#[trigger] Self::yields(
            tz,
            s,
            Self::pos_after(tz, s, p, n),
            t,
        ) <==> t == tz.illegal_token()) by {
            Self::lemma_illegal_prefix(tz, s, p, q, n);
            assert(s[p + n] != '\0');
        }
    }

    proof fn lemma_illegal_prefix(tz: Z, s: Seq<char>, p: int, q: int, n: nat)
        requires
            0 <= p <= q <= s.len(),
            n <= q - p,
            forall|k: int|
                p <= k < q ==> !tz.whitespace(#[trigger] s[k]) && s[k] != '\0'
                    && Self::category_at(tz, s, k) is None,
        ensures
            Self::pos_after(tz, s, p, n) == p + n,
        decreases n,
    {
        if n > 0 {
            Self::lemma_illegal_prefix(tz, s, p, q, (n - 1) as nat);
            let k = p + n - 1;
            assert(!tz.whitespace(s[k]) && s[k] != '\0');
        }
    }

    /// A lexeme grows exactly over a run of characters that its part
    /// predicate accepts, and stops at the first it refuses or at the end.
    pub proof fn lemma_run_end(tz: Z, c: Category, s: Seq<char>, start: int, j: int, e: int)
        requires
            0 <= start < j <= e <= s.len(),
            forall|k: int|
                j <= k < e ==> Self::continues(
                    tz,
                    c,
                    #[trigger] s[k],
                    char_at(s, k + 1),
                    s.subrange(start, k),
                ),
            e == s.len() || !Self::continues(tz, c, s[e], char_at(s, e + 1), s.subrange(start, e)),
        ensures
            Self::lexeme_end(tz, c, s, start, j) == e,
        decreases e - j,
    {
        if j < e {
            Self::lemma_run_end(tz, c, s, start, j + 1, e);
        }
    }

    /// Input that is one lexeme, spanning `s[0..n]`, followed by whitespace
    /// alone gives that lexeme's token and then the end of input.
    pub proof fn lemma_single_lexeme(tz: Z, s: Seq<char>, n: int, c: Category)
        requires
            0 < n <= s.len(),
            !tz.whitespace(s[0]),
            s[0] != '\0',
            Self::category_at(tz, s, 0) == Some(c),
            Self::lexeme_end(tz, c, s, 0, 1) == n,
            forall|k: int| n <= k < s.len() ==> tz.whitespace(#[trigger] s[k]),
        ensures
            forall|t: T| Self::yields(tz, s, 0, t) <==> tz.token_for(s.subrange(0, n), t),
            Self::next_pos(tz, s, 0) == n,
            Self::ends_at(tz, s, n),
            forall|t: T| Self::yields(tz, s, n, t) <==> t == tz.end_token(),
            Self::next_pos(tz, s, n) == s.len(),
    {
        assert(Self::whitespace_end(tz, s, 0) == 0);
        Self::lemma_blank_suffix(tz, s, n);
    }

    proof fn lemma_whitespace_shift(tz: Z, s: Seq<char>, q: int, i: int)
        requires
            0 <= q <= s.len(),
            0 <= i <= s.len() - q,
        ensures
            Self::whitespace_end(tz, s, q + i) == q + Self::whitespace_end(
                tz,
                s.subrange(q, s.len() as int),
                i,
            ),
        decreases s.len() - q - i,
    {
        let r = s.subrange(q, s.len() as int);
        if i < r.len() {
            assert(s[q + i] == r[i]);
            Self::lemma_whitespace_shift(tz, s, q, i + 1);
        }
    }

    proof fn lemma_char_shift(s: Seq<char>, q: int, i: int)
        requires
            0 <= q <= s.len(),
            0 <= i,
        ensures
            char_at(s, q + i) == char_at(s.subrange(q, s.len() as int), i),
    {
    }

    proof fn lemma_lexeme_end_bounds(tz: Z, c: Category, s: Seq<char>, start: int, j: int)
        requires
            0 <= start < j <= s.len(),
        ensures
            j <= Self::lexeme_end(tz, c, s, start, j) <= s.len(),
        decreases s.len() - j,
    {
        if j < s.len() {
            Self::lemma_lexeme_end_bounds(tz, c, s, start, j + 1);
        }
    }

    proof fn lemma_lexeme_shift(tz: Z, c: Category, s: Seq<char>, q: int, a: int, j: int)
        requires
            0 <= q <= s.len(),
            0 <= a < j <= s.len() - q,
        ensures
            Self::lexeme_end(tz, c, s, q + a, q + j) == q + Self::lexeme_end(
                tz,
                c,
                s.subrange(q, s.len() as int),
                a,
                j,
            ),
        decreases s.len() - q - j,
    {
        let r = s.subrange(q, s.len() as int);
        if j < r.len() {
            assert(s[q + j] == r[j]);
            Self::lemma_char_shift(s, q, j + 1);
            assert(s.subrange(q + a, q + j) =~= r.subrange(a, j));
            Self::lemma_lexeme_shift(tz, c, s, q, a, j + 1);
        }
    }

    /// A call made at position `q` gives what the first call on the rest of
    /// the input, `s[q..]`, gives, and moves the cursor by as much.
    pub proof fn lemma_scan_rest(tz: Z, s: Seq<char>, q: int)
        requires
            0 <= q <= s.len(),
        ensures
            forall|t: T|
                Self::yields(tz, s, q, t) <==> Self::yields(
                    tz,
                    s.subrange(q, s.len() as int),
                    0,
                    t,
                ),
            Self::next_pos(tz, s, q) == q + Self::next_pos(tz, s.subrange(q, s.len() as int), 0),
    {
        let r = s.subrange(q, s.len() as int);
        Self::lemma_whitespace_shift(tz, s, q, 0);
        let i = Self::whitespace_end(tz, r, 0);
        Self::lemma_whitespace_end_bounds(tz, r, 0);
        Self::lemma_char_shift(s, q, i);
        Self::lemma_char_shift(s, q, i + 1);
        assert(Self::category_at(tz, s, q + i) == Self::category_at(tz, r, i));
        match Self::category_at(tz, r, i) {
            Some(c) => {
                if char_at(r, i) != '\0' {
                    Self::lemma_lexeme_shift(tz, c, s, q, i, i + 1);
                    let e = Self::lexeme_end(tz, c, r, i, i + 1);
                    Self::lemma_lexeme_end_bounds(tz, c, r, i, i + 1);
                    assert(s.subrange(q + i, q + e) =~= r.subrange(i, e));
                }
            },
            None => {},
        }
    }
}

} // verus!