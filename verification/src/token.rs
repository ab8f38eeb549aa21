//! Tokens produced by the lexer and consumed by the parser.
use vstd::prelude::*;
use vstd::string::*;

verus! {

/// The kind of a token.
#[derive(Clone, Copy, Debug, PartialEq, Eq, Structural)]
pub enum TokenType {
    Illegal,
    Eof,
    // Identifiers + literals
    Ident,
    Int,
    String,
    // Operators
    Assign,
    Plus,
    Minus,
    Bang,
    Asterisk,
    Slash,
    Lt,
    Gt,
    Eq,
    NotEq,
    // Delimiters
    Comma,
    Semicolon,
    Lparen,
    Rparen,
    Lbrace,
    Rbrace,
    // Keywords
    Function,
    Let,
    True,
    False,
    If,
    Else,
    Return,
}

pub const ILLEGAL: TokenType = TokenType::Illegal;
pub const EOF: TokenType = TokenType::Eof;
pub const IDENT: TokenType = TokenType::Ident;
pub const INT: TokenType = TokenType::Int;
pub const STRING: TokenType = TokenType::String;
pub const ASSIGN: TokenType = TokenType::Assign;
pub const PLUS: TokenType = TokenType::Plus;
pub const MINUS: TokenType = TokenType::Minus;
pub const BANG: TokenType = TokenType::Bang;
pub const ASTERISK: TokenType = TokenType::Asterisk;
pub const SLASH: TokenType = TokenType::Slash;
pub const LT: TokenType = TokenType::Lt;
pub const GT: TokenType = TokenType::Gt;
pub const EQ: TokenType = TokenType::Eq;
pub const NOT_EQ: TokenType = TokenType::NotEq;
pub const COMMA: TokenType = TokenType::Comma;
pub const SEMICOLON: TokenType = TokenType::Semicolon;
pub const LPAREN: TokenType = TokenType::Lparen;
pub const RPAREN: TokenType = TokenType::Rparen;
pub const LBRACE: TokenType = TokenType::Lbrace;
pub const RBRACE: TokenType = TokenType::Rbrace;
pub const FUNCTION: TokenType = TokenType::Function;
pub const LET: TokenType = TokenType::Let;
pub const TRUE: TokenType = TokenType::True;
pub const FALSE: TokenType = TokenType::False;
pub const IF: TokenType = TokenType::If;
pub const ELSE: TokenType = TokenType::Else;
pub const RETURN: TokenType = TokenType::Return;

impl TokenType {
    /// The printed name of a token kind: the operator or delimiter itself,
    /// or an upper-case word for the other kinds.
    pub open spec fn spec_name(self) -> Seq<char> {
        match self {
            TokenType::Illegal => "ILLEGAL"@,
            TokenType::Eof => "EOF"@,
            TokenType::Ident => "IDENT"@,
            TokenType::Int => "INT"@,
            TokenType::String => "STRING"@,
            TokenType::Assign => "="@,
            TokenType::Plus => "+"@,
            TokenType::Minus => "-"@,
            TokenType::Bang => "!"@,
            TokenType::Asterisk => "*"@,
            TokenType::Slash => "/"@,
            TokenType::Lt => "<"@,
            TokenType::Gt => ">"@,
            TokenType::Eq => "=="@,
            TokenType::NotEq => "!="@,
            TokenType::Comma => ","@,
            TokenType::Semicolon => ";"@,
            TokenType::Lparen => "("@,
            TokenType::Rparen => ")"@,
            TokenType::Lbrace => "{"@,
            TokenType::Rbrace => "}"@,
            TokenType::Function => "FUNCTION"@,
            TokenType::Let => "LET"@,
            TokenType::True => "TRUE"@,
            TokenType::False => "FALSE"@,
            TokenType::If => "IF"@,
            TokenType::Else => "ELSE"@,
            TokenType::Return => "RETURN"@,
        }
    }

    /// The printed name of a token kind.
    pub fn name(&self) -> (r: &'static str)
        ensures
            r@ == self.spec_name(),
    {
        match self {
            TokenType::Illegal => "ILLEGAL",
            TokenType::Eof => "EOF",
            TokenType::Ident => "IDENT",
            TokenType::Int => "INT",
            TokenType::String => "STRING",
            TokenType::Assign => "=",
            TokenType::Plus => "+",
            TokenType::Minus => "-",
            TokenType::Bang => "!",
            TokenType::Asterisk => "*",
            TokenType::Slash => "/",
            TokenType::Lt => "<",
            TokenType::Gt => ">",
            TokenType::Eq => "==",
            TokenType::NotEq => "!=",
            TokenType::Comma => ",",
            TokenType::Semicolon => ";",
            TokenType::Lparen => "(",
            TokenType::Rparen => ")",
            TokenType::Lbrace => "{",
            TokenType::Rbrace => "}",
            TokenType::Function => "FUNCTION",
            TokenType::Let => "LET",
            TokenType::True => "TRUE",
            TokenType::False => "FALSE",
            TokenType::If => "IF",
            TokenType::Else => "ELSE",
            TokenType::Return => "RETURN",
        }
    }
}

/// A token: its kind and the text it was read from.
#[derive(Clone, Debug)]
pub struct Token {
    pub toke_type: TokenType,
    pub literal: String,
}

/// The mathematical value of a token.
#[verifier::ext_equal]
pub struct TokenV {
    pub toke_type: TokenType,
    pub literal: Seq<char>,
}

impl View for Token {
    type V = TokenV;

    open spec fn view(&self) -> TokenV {
        TokenV { toke_type: self.toke_type, literal: self.literal@ }
    }
}

impl Token {
    pub fn new(token_t: TokenType, ch: &str) -> (res: Token)
        ensures
            res@ == (TokenV { toke_type: token_t, literal: ch@ }),
    {
        Token { toke_type: token_t, literal: String::from_str(ch) }
    }

    /// A placeholder token: kind `Illegal` with an empty literal.
    pub fn new_empty() -> (res: Token)
        ensures
            res@ == (TokenV { toke_type: TokenType::Illegal, literal: Seq::<char>::empty() }),
    {
        Token { toke_type: TokenType::Illegal, literal: String::new() }
    }

    /// A copy of this token with the same value.
    pub fn duplicate(&self) -> (res: Token)
        ensures
            res@ == self@,
    {
        Token { toke_type: self.toke_type, literal: self.literal.clone() }
    }
}

/// The kind of a word: a keyword kind for the seven keywords, `Ident` otherwise.
pub open spec fn keyword_kind(ident: Seq<char>) -> TokenType {
    if ident == "fn"@ {
        TokenType::Function
    } else if ident == "let"@ {
        TokenType::Let
    } else if ident == "true"@ {
        TokenType::True
    } else if ident == "false"@ {
        TokenType::False
    } else if ident == "if"@ {
        TokenType::If
    } else if ident == "else"@ {
        TokenType::Else
    } else if ident == "return"@ {
        TokenType::Return
    } else {
        TokenType::Ident
    }
}

/// Whether two strings hold the same characters.
pub fn str_eq(a: &str, b: &str) -> (r: bool)
    ensures
        r == (a@ == b@),
{
    let x = a.to_owned();
    let y = b.to_owned();
    x == y
}

pub fn lookup_identifier(ident: &str) -> (r: TokenType)
    ensures
        r == keyword_kind(ident@),
{
    if str_eq(ident, "fn") {
        TokenType::Function
    } else if str_eq(ident, "let") {
        TokenType::Let
    } else if str_eq(ident, "true") {
        TokenType::True
    } else if str_eq(ident, "false") {
        TokenType::False
    } else if str_eq(ident, "if") {
        TokenType::If
    } else if str_eq(ident, "else") {
        TokenType::Else
    } else if str_eq(ident, "return") {
        TokenType::Return
    } else {
        TokenType::Ident
    }
}

} // verus!
