//! The lexer: turns source text into tokens, one at a time.
use vstd::prelude::*;
use vstd::string::*;

use crate::token::{keyword_kind, lookup_identifier, Token, TokenType, TokenV};
use crate::utils::{digit, is_digit_char, is_letter_char, letter};

verus! {

broadcast use vstd::string::is_ascii_spec_bytes;

pub const DOUBLE_QUOTE: &'static str = "\"";

/// Whitespace skipped between tokens.
pub open spec fn white(c: char) -> bool {
    c == ' ' || c == '\t' || c == '\n' || c == '\r'
}

/// The first position at or after `p` that does not hold whitespace.
pub open spec fn skip_ws(s: Seq<char>, p: int) -> int
    decreases s.len() - p,
{
    if 0 <= p < s.len() && white(s[p]) {
        skip_ws(s, p + 1)
    } else {
        p
    }
}

/// The first position at or after `p` that does not hold a letter.
pub open spec fn ident_end(s: Seq<char>, p: int) -> int
    decreases s.len() - p,
{
    if 0 <= p < s.len() && letter(s[p]) {
        ident_end(s, p + 1)
    } else {
        p
    }
}

/// The first position at or after `p` that does not hold a digit.
pub open spec fn number_end(s: Seq<char>, p: int) -> int
    decreases s.len() - p,
{
    if 0 <= p < s.len() && digit(s[p]) {
        number_end(s, p + 1)
    } else {
        p
    }
}

/// Scanning a string literal from position `q`: the first position that holds
/// the closing quote, or that is the last position of the text or beyond it.
pub open spec fn string_end(s: Seq<char>, q: int) -> int
    decreases s.len() - q,
{
    if (0 <= q < s.len() && s[q] == '"') || q + 1 >= s.len() || q < 0 {
        q
    } else {
        string_end(s, q + 1)
    }
}

pub open spec fn tok(t: TokenType, lit: Seq<char>) -> TokenV {
    TokenV { toke_type: t, literal: lit }
}

/// The token that starts at or after position `p` of `s` and the position
/// where the lexer stands after reading it.
pub open spec fn lex_next(s: Seq<char>, p: int) -> (TokenV, int) {
    let q = skip_ws(s, p);
    if q >= s.len() {
        (tok(TokenType::Eof, Seq::empty()), q + 1)
    } else {
        let c = s[q];
        if c == '=' {
            if q + 1 < s.len() && s[q + 1] == '=' {
                (tok(TokenType::Eq, "=="@), q + 2)
            } else {
                (tok(TokenType::Assign, seq![c]), q + 1)
            }
        } else if c == '!' {
            if q + 1 < s.len() && s[q + 1] == '=' {
                (tok(TokenType::NotEq, "!="@), q + 2)
            } else {
                (tok(TokenType::Bang, seq![c]), q + 1)
            }
        } else if c == '+' {
            (tok(TokenType::Plus, seq![c]), q + 1)
        } else if c == '-' {
            (tok(TokenType::Minus, seq![c]), q + 1)
        } else if c == '/' {
            (tok(TokenType::Slash, seq![c]), q + 1)
        } else if c == '*' {
            (tok(TokenType::Asterisk, seq![c]), q + 1)
        } else if c == '<' {
            (tok(TokenType::Lt, seq![c]), q + 1)
        } else if c == '>' {
            (tok(TokenType::Gt, seq![c]), q + 1)
        } else if c == ';' {
            (tok(TokenType::Semicolon, seq![c]), q + 1)
        } else if c == ',' {
            (tok(TokenType::Comma, seq![c]), q + 1)
        } else if c == '(' {
            (tok(TokenType::Lparen, seq![c]), q + 1)
        } else if c == ')' {
            (tok(TokenType::Rparen, seq![c]), q + 1)
        } else if c == '{' {
            (tok(TokenType::Lbrace, seq![c]), q + 1)
        } else if c == '}' {
            (tok(TokenType::Rbrace, seq![c]), q + 1)
        } else if c == '"' {
            let e = string_end(s, q + 1);
            (tok(TokenType::String, s.subrange(q + 1, e)), e + 1)
        } else if letter(c) {
            let e = ident_end(s, q);
            (tok(keyword_kind(s.subrange(q, e)), s.subrange(q, e)), e)
        } else if digit(c) {
            let e = number_end(s, q);
            (tok(TokenType::Int, s.subrange(q, e)), e)
        } else {
            (tok(TokenType::Illegal, seq![c]), q)
        }
    }
}

/// Whether a token ends the token stream: the end of input, or an illegal
/// character, at which the lexer stays.
pub open spec fn is_final(t: TokenV) -> bool {
    t.toke_type == TokenType::Eof || t.toke_type == TokenType::Illegal
}

/// All the tokens the lexer gives from position `p` on, up to and including
/// the first final one. After it the lexer gives that final token forever.
pub open spec fn lex_all(s: Seq<char>, p: int) -> Seq<TokenV>
    decreases s.len() + 1 - p,
{
    let (t, p2) = lex_next(s, p);
    if is_final(t) {
        seq![t]
    } else if p < p2 <= s.len() + 1 {
        seq![t] + lex_all(s, p2)
    } else {
        seq![t]
    }
}

pub proof fn lemma_skip_ws(s: Seq<char>, p: int)
    requires
        0 <= p,
    ensures
        p <= skip_ws(s, p),
        p <= s.len() ==> skip_ws(s, p) <= s.len(),
        p >= s.len() ==> skip_ws(s, p) == p,
        skip_ws(s, skip_ws(s, p)) == skip_ws(s, p),
        skip_ws(s, p) < s.len() ==> !white(s[skip_ws(s, p)]),
        forall|i: int| p <= i < skip_ws(s, p) ==> white(#[trigger] s[i]),
    decreases s.len() - p,
{
    if p < s.len() && white(s[p]) {
        lemma_skip_ws(s, p + 1);
    }
}

pub proof fn lemma_ident_end(s: Seq<char>, p: int)
    requires
        0 <= p,
    ensures
        p <= ident_end(s, p),
        p <= s.len() ==> ident_end(s, p) <= s.len(),
        forall|i: int| p <= i < ident_end(s, p) ==> letter(#[trigger] s[i]),
    decreases s.len() - p,
{
    if p < s.len() && letter(s[p]) {
        lemma_ident_end(s, p + 1);
    }
}

pub proof fn lemma_number_end(s: Seq<char>, p: int)
    requires
        0 <= p,
    ensures
        p <= number_end(s, p),
        p <= s.len() ==> number_end(s, p) <= s.len(),
        forall|i: int| p <= i < number_end(s, p) ==> digit(#[trigger] s[i]),
    decreases s.len() - p,
{
    if p < s.len() && digit(s[p]) {
        lemma_number_end(s, p + 1);
    }
}

pub proof fn lemma_string_end(s: Seq<char>, q: int)
    requires
        0 <= q <= s.len(),
    ensures
        q <= string_end(s, q) <= s.len(),
        forall|i: int| q <= i < string_end(s, q) ==> #[trigger] s[i] != '"',
    decreases s.len() - q,
{
    if !((q < s.len() && s[q] == '"') || q + 1 >= s.len()) {
        lemma_string_end(s, q + 1);
    }
}

/// The lexer moves forward, and only a final token leaves it where it was.
/// A token other than the end of input leaves the lexer at most one past
/// the end of the text; the end of input moves it one past where it stands.
pub proof fn lemma_lex_next(s: Seq<char>, p: int)
    requires
        0 <= p,
    ensures
        p <= lex_next(s, p).1,
        p <= s.len() ==> lex_next(s, p).1 <= s.len() + 1,
        !is_final(lex_next(s, p).0) ==> p < lex_next(s, p).1 <= s.len() + 1,
        lex_next(s, p).0.toke_type == TokenType::Eof ==> s.len() <= skip_ws(s, p)
            && lex_next(s, p).1 == skip_ws(s, p) + 1,
        lex_next(s, p).0.toke_type == TokenType::Illegal ==> lex_next(s, p).1 == skip_ws(s, p)
            && skip_ws(s, p) < s.len(),
{
    lemma_skip_ws(s, p);
    let q = skip_ws(s, p);
    if q < s.len() {
        lemma_ident_end(s, q);
        lemma_number_end(s, q);
        lemma_string_end(s, q + 1);
        if letter(s[q]) {
            lemma_ident_end(s, q + 1);
            assert(ident_end(s, q) == ident_end(s, q + 1));
        }
        if digit(s[q]) {
            lemma_number_end(s, q + 1);
            assert(number_end(s, q) == number_end(s, q + 1));
        }
    }
}

/// At a final token the lexer gives that same token again.
pub proof fn lemma_lex_final(s: Seq<char>, p: int)
    requires
        0 <= p,
        is_final(lex_next(s, p).0),
    ensures
        lex_next(s, lex_next(s, p).1).0 == lex_next(s, p).0,
{
    lemma_lex_next(s, p);
    lemma_skip_ws(s, p);
    lemma_skip_ws(s, lex_next(s, p).1);
}

/// The token stream is never empty, and it unfolds one token at a time.
pub proof fn lemma_lex_all(s: Seq<char>, p: int)
    requires
        0 <= p,
    ensures
        lex_all(s, p).len() >= 1,
        lex_all(s, p)[0] == lex_next(s, p).0,
        is_final(lex_next(s, p).0) ==> lex_all(s, p) == seq![lex_next(s, p).0],
        is_final(lex_next(s, p).0) ==> lex_all(s, lex_next(s, p).1) == lex_all(s, p),
        !is_final(lex_next(s, p).0) ==> lex_all(s, p) == seq![lex_next(s, p).0] + lex_all(
            s,
            lex_next(s, p).1,
        ),
        is_final(lex_all(s, p).last()),
        forall|i: int| 0 <= i < lex_all(s, p).len() - 1 ==> !is_final(#[trigger] lex_all(s, p)[i]),
    decreases s.len() + 1 - p,
{
    lemma_lex_next(s, p);
    let (t, p2) = lex_next(s, p);
    if is_final(t) {
        lemma_lex_final(s, p);
    } else {
        lemma_lex_all(s, p2);
        let tail = lex_all(s, p2);
        assert forall|i: int| 0 <= i < lex_all(s, p).len() - 1 implies !is_final(
            #[trigger] lex_all(s, p)[i],
        ) by {
            if i > 0 {
                assert(lex_all(s, p)[i] == tail[i - 1]);
            }
        }
    }
}

#[derive(Copy, Clone)]
pub struct Lexer<'a> {
    input: &'a str,
    position: usize,
    read_position: usize,
    ch: Option<char>,
}

impl<'a> Lexer<'a> {
    /// The text being read.
    pub closed spec fn text(&self) -> Seq<char> {
        self.input@
    }

    /// The position of the current character; at and past the end of the
    /// text there is none.
    pub closed spec fn pos(&self) -> int {
        self.position as int
    }

    /// The current character, if any.
    pub closed spec fn current(&self) -> Option<char> {
        self.ch
    }

    /// The position of the next character to read.
    pub closed spec fn read_pos(&self) -> int {
        self.read_position as int
    }

    /// The lexer's invariant: ASCII text, the read position one past the
    /// position, and the current character the one at the position, if any.
    pub closed spec fn wf(&self) -> bool {
        &&& self.input.is_ascii()
        &&& self.input@.len() < usize::MAX - 2
        &&& self.position < usize::MAX
        &&& self.read_position == self.position + 1
        &&& self.ch == if self.position < self.input@.len() {
            Some(self.input@[self.position as int])
        } else {
            None
        }
    }

    /// A lexer that `read_char` can move: well formed, or not yet at its
    /// first character, with room to count one position further.
    pub closed spec fn can_read(&self) -> bool {
        &&& self.read_position == self.position + 1 || (self.position == 0
            && self.read_position == 0)
        &&& self.input.is_ascii()
        &&& self.input@.len() < usize::MAX - 2
        &&& self.read_position < usize::MAX
    }

    /// What the lexer's invariant says in terms of its public views.
    pub proof fn lemma_wf(&self)
        requires
            self.wf(),
        ensures
            0 <= self.pos() < usize::MAX,
            self.read_pos() == self.pos() + 1,
            self.text().len() < usize::MAX - 2,
            self.current() == if self.pos() < self.text().len() {
                Some(self.text()[self.pos()])
            } else {
                None
            },
            self.pos() < usize::MAX - 1 ==> self.can_read(),
    {
    }

    fn at_letter(&self) -> (r: bool)
        ensures
            r == (self.ch matches Some(c) && letter(c)),
    {
        match self.ch {
            Some(c) => is_letter_char(c),
            None => false,
        }
    }

    fn at_digit(&self) -> (r: bool)
        ensures
            r == (self.ch matches Some(c) && digit(c)),
    {
        match self.ch {
            Some(c) => is_digit_char(c),
            None => false,
        }
    }

    fn at_white(&self) -> (r: bool)
        ensures
            r == (self.ch matches Some(c) && white(c)),
    {
        match self.ch {
            Some(c) => c == ' ' || c == '\t' || c == '\n' || c == '\r',
            None => false,
        }
    }

    /// A lexer at the start of `input`. The text must be ASCII: indexing by
    /// byte, the lexer panics on reaching a character of more than one byte,
    /// and this library reads ASCII text only.
    pub fn new(input: &'a str) -> (lexer: Lexer<'a>)
        requires
            input.is_ascii(),
            input@.len() < usize::MAX - 2,
        ensures
            lexer.wf(),
            lexer.text() == input@,
            lexer.pos() == 0,
            lexer.read_pos() == 1,
    {
        let mut lexer = Lexer { input, position: 0, read_position: 0, ch: None };
        lexer.read_char();
        lexer
    }

    /// Moves to the next character: the position becomes the read position,
    /// and the read position moves one further, past the end of the text too.
    pub fn read_char(&mut self)
        requires
            old(self).can_read(),
        ensures
            final(self).wf(),
            final(self).text() == old(self).text(),
            final(self).pos() == old(self).read_pos(),
            final(self).read_pos() == old(self).read_pos() + 1,
            final(self).current() == if old(self).read_pos() < old(self).text().len() {
                Some(old(self).text()[old(self).read_pos()])
            } else {
                None
            },
    {
        if self.read_position >= self.input.len() {
            self.ch = None;
        } else {
            self.ch = Some(self.input.get_char(self.read_position));
        }
        self.position = self.read_position;
        self.read_position = self.read_position + 1;
    }

    pub fn read_identifier(&mut self) -> (r: &'a str)
        requires
            old(self).wf(),
            old(self).pos() <= old(self).text().len(),
        ensures
            final(self).wf(),
            final(self).text() == old(self).text(),
            final(self).pos() == ident_end(old(self).text(), old(self).pos()),
            r@ == old(self).text().subrange(old(self).pos(), final(self).pos()),
    {
        let position: usize = self.position;
        proof {
            lemma_ident_end(self.input@, position as int);
        }
        while self.at_letter()
            invariant
                self.wf(),
                self.input@ == old(self).input@,
                position <= self.position,
                ident_end(self.input@, position as int) == ident_end(
                    self.input@,
                    self.position as int,
                ),
            decreases self.input@.len() - self.position,
        {
            self.read_char();
        }
        self.input.substring_ascii(position, self.position)
    }

    pub fn skip_white_space(&mut self)
        requires
            old(self).wf(),
        ensures
            final(self).wf(),
            final(self).text() == old(self).text(),
            final(self).pos() == skip_ws(old(self).text(), old(self).pos()),
    {
        while self.at_white()
            invariant
                self.wf(),
                self.input@ == old(self).input@,
                skip_ws(self.input@, old(self).position as int) == skip_ws(
                    self.input@,
                    self.position as int,
                ),
            decreases self.input@.len() - self.position,
        {
            self.read_char();
        }
    }

    pub fn read_number(&mut self) -> (r: &'a str)
        requires
            old(self).wf(),
            old(self).pos() <= old(self).text().len(),
        ensures
            final(self).wf(),
            final(self).text() == old(self).text(),
            final(self).pos() == number_end(old(self).text(), old(self).pos()),
            r@ == old(self).text().subrange(old(self).pos(), final(self).pos()),
    {
        let position: usize = self.position;
        proof {
            lemma_number_end(self.input@, position as int);
        }
        while self.at_digit()
            invariant
                self.wf(),
                self.input@ == old(self).input@,
                position <= self.position,
                number_end(self.input@, position as int) == number_end(
                    self.input@,
                    self.position as int,
                ),
            decreases self.input@.len() - self.position,
        {
            self.read_char();
        }
        self.input.substring_ascii(position, self.position)
    }

    /// Reads a string literal whose opening quote is the current character.
    /// An unterminated literal ends before the last character of the text.
    pub fn read_string(&mut self) -> (r: &'a str)
        requires
            old(self).wf(),
            old(self).pos() < old(self).text().len(),
        ensures
            final(self).wf(),
            final(self).text() == old(self).text(),
            final(self).pos() == string_end(old(self).text(), old(self).pos() + 1),
            r@ == old(self).text().subrange(old(self).pos() + 1, final(self).pos()),
    {
        let position: usize = self.position;
        proof {
            lemma_string_end(self.input@, position + 1);
        }
        loop
            invariant_except_break
                self.wf(),
                self.input@ == old(self).input@,
                position == old(self).position,
                position <= self.position < self.input@.len(),
                string_end(self.input@, position + 1) == string_end(
                    self.input@,
                    self.position + 1,
                ),
            ensures
                self.wf(),
                self.input@ == old(self).input@,
                position < self.position,
                self.position == string_end(self.input@, position + 1),
            decreases self.input@.len() - self.position,
        {
            self.read_char();
            let at_quote = match self.ch {
                Some(c) => c == '"',
                None => false,
            };
            if at_quote || self.read_position >= self.input.len() {
                break ;
            }
        }
        self.input.substring_ascii(position + 1, self.position)
    }

    /// The character after the current one, or the empty string at the end.
    pub fn peek_char(&self) -> (r: &'a str)
        requires
            self.wf(),
        ensures
            r@ == if self.pos() + 1 < self.text().len() {
                seq![self.text()[self.pos() + 1]]
            } else {
                Seq::empty()
            },
    {
        proof {
            reveal_strlit("");
        }
        if self.read_position >= self.input.len() {
            ""
        } else {
            let r = self.input.substring_ascii(self.read_position, self.read_position + 1);
            assert(r@ =~= seq![self.input@[self.read_position as int]]);
            r
        }
    }

    /// Whether the character after the current one is `=`.
    fn peek_is_assign(&self) -> (r: bool)
        requires
            self.wf(),
        ensures
            r == (self.pos() + 1 < self.text().len() && self.text()[self.pos() + 1] == '='),
    {
        let next = self.peek_char();
        let r = str_is(next, "=");
        proof {
            reveal_strlit("=");
            if r {
                assert(next@[0] == "="@[0]);
            } else if self.pos() + 1 < self.text().len() && self.text()[self.pos() + 1] == '=' {
                assert(next@ =~= "="@);
            }
        }
        r
    }

    pub fn next_token(&mut self) -> (token: Token)
        requires
            old(self).wf(),
            old(self).pos() < usize::MAX - 1,
        ensures
            final(self).wf(),
            final(self).text() == old(self).text(),
            token@ == lex_next(old(self).text(), old(self).pos()).0,
            final(self).pos() == lex_next(old(self).text(), old(self).pos()).1,
    {
        proof {
            lemma_lex_next(self.input@, self.position as int);
        }
        let token: Token;
        self.skip_white_space();
        let c = match self.ch {
            Some(c) => c,
            None => {
                proof {
                    reveal_strlit("");
                }
                let t = Token::new(TokenType::Eof, "");
                self.read_char();
                return t;
            },
        };
        let cur = self.input.substring_ascii(self.position, self.position + 1);
        assert(cur@ =~= seq![c]);
        if c == '=' {
            if self.peek_is_assign() {
                self.read_char();
                token = Token::new(TokenType::Eq, "==");
                self.read_char();
                assert(token@ == lex_next(old(self).text(), old(self).pos()).0);
                assert(self.pos() == lex_next(old(self).text(), old(self).pos()).1);
                return token;
            } else {
                token = Token::new(TokenType::Assign, cur);
            }
        } else if c == '!' {
            if self.peek_is_assign() {
                self.read_char();
                token = Token::new(TokenType::NotEq, "!=");
            } else {
                token = Token::new(TokenType::Bang, cur);
            }
        } else if c == '+' {
            token = Token::new(TokenType::Plus, cur);
        } else if c == '-' {
            token = Token::new(TokenType::Minus, cur);
        } else if c == '/' {
            token = Token::new(TokenType::Slash, cur);
        } else if c == '*' {
            token = Token::new(TokenType::Asterisk, cur);
        } else if c == '<' {
            token = Token::new(TokenType::Lt, cur);
        } else if c == '>' {
            token = Token::new(TokenType::Gt, cur);
        } else if c == ';' {
            token = Token::new(TokenType::Semicolon, cur);
        } else if c == ',' {
            token = Token::new(TokenType::Comma, cur);
        } else if c == '(' {
            token = Token::new(TokenType::Lparen, cur);
        } else if c == ')' {
            token = Token::new(TokenType::Rparen, cur);
        } else if c == '{' {
            token = Token::new(TokenType::Lbrace, cur);
        } else if c == '}' {
            token = Token::new(TokenType::Rbrace, cur);
        } else if c == '"' {
            let lit = self.read_string();
            token = Token::new(TokenType::String, lit);
            self.read_char();
            assert(token@ == lex_next(old(self).text(), old(self).pos()).0);
            assert(self.pos() == lex_next(old(self).text(), old(self).pos()).1);
            return token;
        } else if is_letter_char(c) {
            let literal = self.read_identifier();
            return Token::new(lookup_identifier(literal), literal);
        } else if is_digit_char(c) {
            return Token::new(TokenType::Int, self.read_number());
        } else {
            return Token::new(TokenType::Illegal, cur);
        }
        self.read_char();
        token
    }
}

/// Whether `a` holds exactly the characters of `b`.
fn str_is(a: &str, b: &str) -> (r: bool)
    ensures
        r == (a@ == b@),
{
    crate::token::str_eq(a, b)
}

/// Whether the tokens of `input` run to the end of the input rather than
/// stopping at an illegal character; parsing ends exactly on such inputs.
pub fn lexes_to_eof(input: &str) -> (r: bool)
    requires
        input.is_ascii(),
        input@.len() < usize::MAX - 2,
    ensures
        r == (lex_all(input@, 0).last().toke_type == TokenType::Eof),
{
    let mut lexer = Lexer::new(input);
    loop
        invariant
            lexer.wf(),
            lexer.text() == input@,
            0 <= lexer.pos() <= input@.len() + 1,
            lex_all(input@, lexer.pos()).last() == lex_all(input@, 0).last(),
        decreases input@.len() + 1 - lexer.pos(),
    {
        let ghost p = lexer.pos();
        proof {
            lemma_lex_all(input@, p);
            lemma_lex_next(input@, p);
            let p2 = lex_next(input@, p).1;
            if !is_final(lex_next(input@, p).0) {
                lemma_lex_all(input@, p2);
                let rest = lex_all(input@, p2);
                assert((seq![lex_next(input@, p).0] + rest).last() == rest.last());
            }
        }
        let t = lexer.next_token();
        match t.toke_type {
            TokenType::Eof => {
                return true;
            },
            TokenType::Illegal => {
                return false;
            },
            _ => {},
        }
    }
}

/// The characters of text without string literals: letters, digits,
/// whitespace and the operator and delimiter characters.
pub open spec fn plain_char(c: char) -> bool {
    letter(c) || digit(c) || white(c) || c == '=' || c == '!' || c == '+' || c == '-' || c
        == '/' || c == '*' || c == '<' || c == '>' || c == ';' || c == ',' || c == '(' || c
        == ')' || c == '{' || c == '}'
}

/// The text from position `p` on, without its whitespace.
pub open spec fn strip_ws(s: Seq<char>, p: int) -> Seq<char>
    decreases s.len() - p,
{
    if p < 0 || p >= s.len() {
        Seq::empty()
    } else if white(s[p]) {
        strip_ws(s, p + 1)
    } else {
        seq![s[p]] + strip_ws(s, p + 1)
    }
}

/// The literals of all tokens but the last, one after the other.
pub open spec fn token_text(ts: Seq<TokenV>) -> Seq<char>
    decreases ts.len(),
{
    if ts.len() <= 1 {
        Seq::empty()
    } else {
        ts[0].literal + token_text(ts.drop_first())
    }
}

proof fn lemma_strip_skip(s: Seq<char>, p: int)
    requires
        0 <= p <= s.len(),
    ensures
        strip_ws(s, p) == strip_ws(s, skip_ws(s, p)),
    decreases s.len() - p,
{
    if p < s.len() && white(s[p]) {
        lemma_strip_skip(s, p + 1);
    }
}

proof fn lemma_strip_span(s: Seq<char>, q: int, e: int)
    requires
        0 <= q <= e <= s.len(),
        forall|i: int| q <= i < e ==> !white(#[trigger] s[i]),
    ensures
        strip_ws(s, q) == s.subrange(q, e) + strip_ws(s, e),
    decreases e - q,
{
    if q < e {
        lemma_strip_span(s, q + 1, e);
        assert(s.subrange(q, e) =~= seq![s[q]] + s.subrange(q + 1, e));
        assert(seq![s[q]] + (s.subrange(q + 1, e) + strip_ws(s, e)) =~= s.subrange(q, e)
            + strip_ws(s, e));
    } else {
        assert(s.subrange(q, e) =~= Seq::<char>::empty());
        assert(Seq::<char>::empty() + strip_ws(s, e) =~= strip_ws(s, e));
    }
}

/// Text without string literals or illegal characters lexes to the end of
/// input with no illegal token, and the literals of its tokens spell the text
/// without its whitespace.
pub proof fn lemma_plain_text_lexes(s: Seq<char>, p: int)
    requires
        0 <= p <= s.len(),
        forall|i: int| p <= i < s.len() ==> plain_char(#[trigger] s[i]),
    ensures
        lex_all(s, p).last().toke_type == TokenType::Eof,
        forall|i: int|
            0 <= i < lex_all(s, p).len() - 1 ==> (#[trigger] lex_all(s, p)[i]).toke_type
                != TokenType::Illegal,
        token_text(lex_all(s, p)) == strip_ws(s, p),
    decreases s.len() - p,
{
    lemma_lex_all(s, p);
    lemma_lex_next(s, p);
    lemma_skip_ws(s, p);
    lemma_strip_skip(s, p);
    let q = skip_ws(s, p);
    let (t, p2) = lex_next(s, p);
    if q >= s.len() {
        assert(lex_all(s, p) == seq![t]);
    } else {
        let c = s[q];
        assert(plain_char(c) && !white(c));
        if c == '=' || c == '!' {
            reveal_strlit("==");
            reveal_strlit("!=");
            if q + 1 < s.len() && s[q + 1] == '=' {
                assert(t.literal =~= s.subrange(q, q + 2));
            } else {
                assert(t.literal =~= s.subrange(q, q + 1));
            }
        } else if letter(c) {
            lemma_ident_end(s, q);
        } else if digit(c) {
            lemma_number_end(s, q);
        } else {
            assert(t.literal =~= s.subrange(q, q + 1));
        }
        assert(!is_final(t));
        assert(t.literal == s.subrange(q, p2));
        assert forall|i: int| q <= i < p2 implies !white(#[trigger] s[i]) by {
            if letter(c) {
                assert(letter(s[i]));
            } else if digit(c) {
                assert(digit(s[i]));
            }
        }
        lemma_strip_span(s, q, p2);
        lemma_plain_text_lexes(s, p2);
        let rest = lex_all(s, p2);
        lemma_lex_all(s, p2);
        assert((seq![t] + rest).drop_first() =~= rest);
        assert((seq![t] + rest).last() == rest.last());
        assert forall|i: int| 0 <= i < lex_all(s, p).len() - 1 implies (
        #[trigger] lex_all(s, p)[i]).toke_type != TokenType::Illegal by {
            if i > 0 {
                assert(lex_all(s, p)[i] == rest[i - 1]);
            }
        }
    }
}

/// Whether a token's kind fits its text: operators and delimiters are named
/// by their own text, words are keywords exactly when `keyword_kind` says so,
/// numbers are runs of digits, and the end of input has no text.
pub open spec fn kind_fits_text(t: TokenV) -> bool {
    match t.toke_type {
        TokenType::Ident | TokenType::Function | TokenType::Let | TokenType::True
        | TokenType::False | TokenType::If | TokenType::Else | TokenType::Return => {
            &&& t.literal.len() > 0
            &&& forall|i: int| 0 <= i < t.literal.len() ==> letter(#[trigger] t.literal[i])
            &&& keyword_kind(t.literal) == t.toke_type
        },
        TokenType::Int => {
            &&& t.literal.len() > 0
            &&& forall|i: int| 0 <= i < t.literal.len() ==> digit(#[trigger] t.literal[i])
        },
        TokenType::String => forall|i: int| 0 <= i < t.literal.len() ==> #[trigger] t.literal[i]
            != '"',
        TokenType::Eof => t.literal.len() == 0,
        TokenType::Illegal => t.literal.len() == 1,
        _ => t.toke_type.spec_name() == t.literal,
    }
}

proof fn lemma_next_kind_fits(s: Seq<char>, p: int)
    requires
        0 <= p,
    ensures
        kind_fits_text(lex_next(s, p).0),
{
    reveal_strlit("=");
    reveal_strlit("==");
    reveal_strlit("!");
    reveal_strlit("!=");
    reveal_strlit("+");
    reveal_strlit("-");
    reveal_strlit("/");
    reveal_strlit("*");
    reveal_strlit("<");
    reveal_strlit(">");
    reveal_strlit(";");
    reveal_strlit(",");
    reveal_strlit("(");
    reveal_strlit(")");
    reveal_strlit("{");
    reveal_strlit("}");
    lemma_skip_ws(s, p);
    let q = skip_ws(s, p);
    if q < s.len() {
        let c = s[q];
        if letter(c) {
            lemma_ident_end(s, q);
            lemma_ident_end(s, q + 1);
            let e = ident_end(s, q);
            assert(e == ident_end(s, q + 1));
            let lit = s.subrange(q, e);
            assert forall|i: int| 0 <= i < lit.len() implies letter(#[trigger] lit[i]) by {
                assert(lit[i] == s[q + i]);
            }
        } else if digit(c) {
            lemma_number_end(s, q);
            lemma_number_end(s, q + 1);
            let e = number_end(s, q);
            assert(e == number_end(s, q + 1));
            let lit = s.subrange(q, e);
            assert forall|i: int| 0 <= i < lit.len() implies digit(#[trigger] lit[i]) by {
                assert(lit[i] == s[q + i]);
            }
        }
        if c == '"' {
            lemma_string_end(s, q + 1);
            let e = string_end(s, q + 1);
            let lit = s.subrange(q + 1, e);
            assert forall|i: int| 0 <= i < lit.len() implies #[trigger] lit[i] != '"' by {
                assert(lit[i] == s[q + 1 + i]);
            }
        }
        let t = lex_next(s, p).0;
        if q + 1 < s.len() && s[q + 1] == '=' && (c == '=' || c == '!') {
        } else if !letter(c) && !digit(c) && c != '"' {
            assert(t.literal =~= seq![c]);
            if t.toke_type != TokenType::Illegal {
                assert(t.literal =~= t.toke_type.spec_name());
            }
        }
    }
}

/// Every token the lexer gives has a kind that fits its text.
pub proof fn lemma_token_kinds_fit_text(s: Seq<char>, p: int)
    requires
        0 <= p,
    ensures
        forall|i: int| 0 <= i < lex_all(s, p).len() ==> kind_fits_text(#[trigger] lex_all(s, p)[i]),
    decreases s.len() + 1 - p,
{
    lemma_lex_all(s, p);
    lemma_lex_next(s, p);
    lemma_next_kind_fits(s, p);
    let (t, p2) = lex_next(s, p);
    if !is_final(t) {
        lemma_token_kinds_fit_text(s, p2);
        let rest = lex_all(s, p2);
        assert forall|i: int| 0 <= i < lex_all(s, p).len() implies kind_fits_text(
            #[trigger] lex_all(s, p)[i],
        ) by {
            if i > 0 {
                assert(lex_all(s, p)[i] == rest[i - 1]);
            }
        }
    }
}

} // verus!
