//! The parser: a Pratt parser from the lexer's tokens to a syntax tree.
//!
//! Its behavior is stated over the token stream the lexer gives (`lex_all`):
//! the parser stands at an index of that stream and collects error messages,
//! and each parsing function is the spec function of the same name in this file.
use vstd::prelude::*;
use vstd::string::*;

use crate::ast;
use crate::ast::{BlockStatementV, ExpressionV, IdentifierV, ProgramV, StatementV};
use crate::lexer::{is_final, lemma_lex_all, lemma_lex_next, lex_all, lex_next};
use crate::lexer::Lexer;
use crate::token::{Token, TokenType, TokenV};
use crate::utils::{digit, digit_char, nat_str};

verus! {

broadcast use vstd::seq::axiom_seq_subrange_decreases;

// --- Precedences ---
#[derive(PartialEq, Eq, Clone, Copy)]
enum Precedence {
    Lowest,
    Equals,  // ==
    LessGreater,  // > or <
    Sum,  // +
    Product,  // *
    Prefix,  // -X or !X
    Call,  // MYfunction(X)
}

/// The weakest binding power.
pub open spec fn lowest() -> nat {
    1
}

/// The binding power of a prefix operator's operand.
pub open spec fn prefix_prec() -> nat {
    6
}

/// The binding power of an operator token; `LOWEST` for all other tokens.
pub open spec fn prec_of(t: TokenType) -> nat {
    match t {
        TokenType::Eq | TokenType::NotEq => 2,
        TokenType::Lt | TokenType::Gt => 3,
        TokenType::Plus | TokenType::Minus => 4,
        TokenType::Slash | TokenType::Asterisk => 5,
        TokenType::Lparen => 7,
        _ => 1,
    }
}

impl Precedence {
    spec fn spec_level(self) -> nat {
        match self {
            Precedence::Lowest => 1,
            Precedence::Equals => 2,
            Precedence::LessGreater => 3,
            Precedence::Sum => 4,
            Precedence::Product => 5,
            Precedence::Prefix => 6,
            Precedence::Call => 7,
        }
    }

    fn level(self) -> (r: u8)
        ensures
            r == self.spec_level(),
    {
        match self {
            Precedence::Lowest => 1,
            Precedence::Equals => 2,
            Precedence::LessGreater => 3,
            Precedence::Sum => 4,
            Precedence::Product => 5,
            Precedence::Prefix => 6,
            Precedence::Call => 7,
        }
    }
}

fn precedences(token_type: TokenType) -> (r: Precedence)
    ensures
        r.spec_level() == prec_of(token_type),
{
    match token_type {
        TokenType::Eq | TokenType::NotEq => Precedence::Equals,
        TokenType::Lt | TokenType::Gt => Precedence::LessGreater,
        TokenType::Plus | TokenType::Minus => Precedence::Sum,
        TokenType::Slash | TokenType::Asterisk => Precedence::Product,
        TokenType::Lparen => Precedence::Call,
        _ => Precedence::Lowest,
    }
}

// --- The state of a parse ---
/// Where the parser stands in its token stream, and the errors it has met.
#[verifier::ext_equal]
pub struct ParseState {
    pub idx: int,
    pub errors: Seq<Seq<char>>,
}

/// The token at index `i`; past the end, the last token, which the lexer repeats.
pub open spec fn tok_at(ts: Seq<TokenV>, i: int) -> TokenV {
    if 0 <= i < ts.len() {
        ts[i]
    } else {
        ts.last()
    }
}

pub open spec fn cur(ts: Seq<TokenV>, st: ParseState) -> TokenV {
    tok_at(ts, st.idx)
}

pub open spec fn peek(ts: Seq<TokenV>, st: ParseState) -> TokenV {
    tok_at(ts, st.idx + 1)
}

/// How many tokens are left.
pub open spec fn measure(ts: Seq<TokenV>, st: ParseState) -> nat {
    if st.idx < ts.len() {
        (ts.len() - st.idx) as nat
    } else {
        0
    }
}

pub open spec fn advance(st: ParseState) -> ParseState {
    ParseState { idx: st.idx + 1, errors: st.errors }
}

/// The errors of `a` are kept, in order, at the start of those of `b`.
pub open spec fn errors_kept(a: ParseState, b: ParseState) -> bool {
    &&& a.errors.len() <= b.errors.len()
    &&& forall|i: int| 0 <= i < a.errors.len() ==> #[trigger] b.errors[i] == a.errors[i]
}

pub open spec fn add_error(st: ParseState, msg: Seq<char>) -> ParseState {
    ParseState { idx: st.idx, errors: st.errors.push(msg) }
}

pub open spec fn peek_error_msg(expected: TokenType, got: TokenType) -> Seq<char> {
    "expected next token to be \""@ + expected.spec_name() + "\", got \""@ + got.spec_name()
        + "\" instead"@
}

pub open spec fn no_prefix_msg(t: TokenType) -> Seq<char> {
    "no prefix parse function for "@ + t.spec_name() + " found"@
}

pub open spec fn int_error_msg(lit: Seq<char>) -> Seq<char> {
    "could not parse "@ + lit + " as integer, "@ + "number too large to fit in target type"@
}

/// `expect_peek`: moves on when the next token has kind `t`, records an error otherwise.
pub open spec fn sp_expect_peek(ts: Seq<TokenV>, st: ParseState, t: TokenType) -> (
    bool,
    ParseState,
) {
    if peek(ts, st).toke_type == t {
        (true, advance(st))
    } else {
        (false, add_error(st, peek_error_msg(t, peek(ts, st).toke_type)))
    }
}

/// Moves past a `;` that follows.
pub open spec fn skip_semicolon(ts: Seq<TokenV>, st: ParseState) -> ParseState {
    if peek(ts, st).toke_type == TokenType::Semicolon {
        advance(st)
    } else {
        st
    }
}

/// The value of a string of decimal digits.
pub open spec fn digits_val(s: Seq<char>) -> nat
    decreases s.len(),
{
    if s.len() == 0 {
        0
    } else {
        digits_val(s.subrange(0, s.len() - 1)) * 10 + ((s.last() as int) - 48) as nat
    }
}

pub open spec fn all_digits(s: Seq<char>) -> bool {
    forall|i: int| 0 <= i < s.len() ==> digit(#[trigger] s[i])
}

pub open spec fn ident_of(t: TokenV) -> IdentifierV {
    IdentifierV { token: t, value: t.literal }
}

/// Parsing an integer literal.
pub open spec fn sp_integer_literal(ts: Seq<TokenV>, st: ParseState) -> (
    Option<ExpressionV>,
    ParseState,
) {
    let t = cur(ts, st);
    if digits_val(t.literal) <= i64::MAX {
        (Some(ExpressionV::IntegerLiteral { token: t, value: digits_val(t.literal) as i64 }), st)
    } else {
        (None, add_error(st, int_error_msg(t.literal)))
    }
}

/// The parsing of a statement, which starts at the current token.
#[verifier::opaque]
pub open spec fn sp_statement(ts: Seq<TokenV>, st: ParseState) -> (
    Option<StatementV>,
    ParseState,
)
    decreases measure(ts, st), 19nat,
{
    let t = cur(ts, st).toke_type;
    if t == TokenType::Let {
        sp_let_statement(ts, st)
    } else if t == TokenType::Return {
        sp_return_statement(ts, st)
    } else {
        sp_expression_statement(ts, st)
    }
}

#[verifier::opaque]
pub open spec fn sp_let_statement(ts: Seq<TokenV>, st: ParseState) -> (
    Option<StatementV>,
    ParseState,
)
    decreases measure(ts, st), 18nat,
{
    let let_token = cur(ts, st);
    let (ok1, st1) = sp_expect_peek(ts, st, TokenType::Ident);
    if !ok1 {
        (None, st1)
    } else {
        let name = ident_of(cur(ts, st1));
        let (ok2, st2) = sp_expect_peek(ts, st1, TokenType::Assign);
        if !ok2 {
            (None, st2)
        } else {
            let st3 = advance(st2);
            if measure(ts, st3) < measure(ts, st) {
                let (v, st4) = sp_expression(ts, st3, lowest());
                match v {
                    None => (None, st4),
                    Some(value) => (
                        Some(StatementV::Let { token: let_token, name, value }),
                        skip_semicolon(ts, st4),
                    ),
                }
            } else {
                (None, st3)
            }
        }
    }
}

#[verifier::opaque]
pub open spec fn sp_return_statement(ts: Seq<TokenV>, st: ParseState) -> (
    Option<StatementV>,
    ParseState,
)
    decreases measure(ts, st), 18nat,
{
    let token = cur(ts, st);
    let st1 = advance(st);
    if measure(ts, st1) < measure(ts, st) {
        let (v, st2) = sp_expression(ts, st1, lowest());
        (Some(StatementV::Return { token, return_value: v }), skip_semicolon(ts, st2))
    } else {
        (None, st1)
    }
}

#[verifier::opaque]
pub open spec fn sp_expression_statement(ts: Seq<TokenV>, st: ParseState) -> (
    Option<StatementV>,
    ParseState,
)
    decreases measure(ts, st), 18nat,
{
    let token = cur(ts, st);
    let (e, st1) = sp_expression(ts, st, lowest());
    match e {
        None => (None, st1),
        Some(expression) => (
            Some(StatementV::Expression { token, expression }),
            skip_semicolon(ts, st1),
        ),
    }
}

/// Whether a token kind starts an expression.
pub open spec fn has_prefix(t: TokenType) -> bool {
    t == TokenType::Ident || t == TokenType::Int || t == TokenType::Bang || t == TokenType::Minus
        || t == TokenType::If || t == TokenType::False || t == TokenType::True || t
        == TokenType::Lparen || t == TokenType::Function || t == TokenType::String
}

/// Whether a token kind continues an expression.
pub open spec fn has_infix(t: TokenType) -> bool {
    t == TokenType::Plus || t == TokenType::Minus || t == TokenType::Slash || t
        == TokenType::Asterisk || t == TokenType::Eq || t == TokenType::NotEq || t == TokenType::Lt
        || t == TokenType::Gt || t == TokenType::Lparen
}

/// The parsing of an expression whose operators bind more tightly than `prec`.
#[verifier::opaque]
pub open spec fn sp_expression(ts: Seq<TokenV>, st: ParseState, prec: nat) -> (
    Option<ExpressionV>,
    ParseState,
)
    decreases measure(ts, st), 17nat,
{
    let t = cur(ts, st).toke_type;
    if !has_prefix(t) {
        (None, add_error(st, no_prefix_msg(t)))
    } else {
        let (l, st1) = sp_prefix(ts, st);
        match l {
            None => (None, st1),
            Some(left) => if measure(ts, st1) <= measure(ts, st) {
                sp_expression_loop(ts, st1, prec, left)
            } else {
                (None, st1)
            },
        }
    }
}

#[verifier::opaque]
pub open spec fn sp_expression_loop(
    ts: Seq<TokenV>,
    st: ParseState,
    prec: nat,
    left: ExpressionV,
) -> (Option<ExpressionV>, ParseState)
    decreases measure(ts, st), 15nat,
{
    let p = peek(ts, st).toke_type;
    if !(p != TokenType::Semicolon && prec < prec_of(p)) {
        (Some(left), st)
    } else if !has_infix(p) {
        (Some(left), st)
    } else {
        let st1 = advance(st);
        if measure(ts, st1) <= measure(ts, st) {
            let (r, st2) = sp_infix(ts, st1, left);
            match r {
                None => (None, st2),
                Some(e) => if measure(ts, st2) < measure(ts, st) {
                    sp_expression_loop(ts, st2, prec, e)
                } else {
                    (Some(e), st2)
                },
            }
        } else {
            (None, st1)
        }
    }
}

/// The prefix parsing functions, chosen by the current token.
#[verifier::opaque]
pub open spec fn sp_prefix(ts: Seq<TokenV>, st: ParseState) -> (Option<ExpressionV>, ParseState)
    decreases measure(ts, st), 16nat,
{
    let t = cur(ts, st);
    match t.toke_type {
        TokenType::Ident => (Some(ExpressionV::Identifier(ident_of(t))), st),
        TokenType::Int => sp_integer_literal(ts, st),
        TokenType::Bang | TokenType::Minus => sp_prefix_expression(ts, st),
        TokenType::If => sp_if_expression(ts, st),
        TokenType::True | TokenType::False => (
            Some(
                ExpressionV::Boolean { token: t, value: t.toke_type == TokenType::True },
            ),
            st,
        ),
        TokenType::Lparen => sp_grouped_expression(ts, st),
        TokenType::Function => sp_function_literal(ts, st),
        TokenType::String => (Some(ExpressionV::StringLiteral { token: t, value: t.literal }), st),
        _ => (None, st),
    }
}

#[verifier::opaque]
pub open spec fn sp_prefix_expression(ts: Seq<TokenV>, st: ParseState) -> (
    Option<ExpressionV>,
    ParseState,
)
    decreases measure(ts, st), 13nat,
{
    let token = cur(ts, st);
    let st1 = advance(st);
    if measure(ts, st1) < measure(ts, st) {
        let (r, st2) = sp_expression(ts, st1, prefix_prec());
        match r {
            None => (None, st2),
            Some(right) => (
                Some(
                    ExpressionV::Prefix {
                        token,
                        operator: token.literal,
                        right: Box::new(right),
                    },
                ),
                st2,
            ),
        }
    } else {
        (None, st1)
    }
}

/// The infix parsing functions, chosen by the current token: operators and calls.
#[verifier::opaque]
pub open spec fn sp_infix(ts: Seq<TokenV>, st: ParseState, left: ExpressionV) -> (
    Option<ExpressionV>,
    ParseState,
)
    decreases measure(ts, st), 14nat,
{
    let token = cur(ts, st);
    if token.toke_type == TokenType::Lparen {
        let (args, st1) = sp_call_arguments(ts, st);
        match args {
            None => (None, st1),
            Some(arguments) => (
                Some(ExpressionV::Call { token, function: Box::new(left), arguments }),
                st1,
            ),
        }
    } else {
        let st1 = advance(st);
        if measure(ts, st1) < measure(ts, st) {
            let (r, st2) = sp_expression(ts, st1, prec_of(token.toke_type));
            match r {
                None => (None, st2),
                Some(right) => (
                    Some(
                        ExpressionV::Infix {
                            token,
                            left: Box::new(left),
                            operator: token.literal,
                            right: Box::new(right),
                        },
                    ),
                    st2,
                ),
            }
        } else {
            (None, st1)
        }
    }
}

#[verifier::opaque]
pub open spec fn sp_grouped_expression(ts: Seq<TokenV>, st: ParseState) -> (
    Option<ExpressionV>,
    ParseState,
)
    decreases measure(ts, st), 13nat,
{
    let st1 = advance(st);
    if measure(ts, st1) < measure(ts, st) {
        let (e, st2) = sp_expression(ts, st1, lowest());
        let (ok, st3) = sp_expect_peek(ts, st2, TokenType::Rparen);
        if !ok {
            (None, st3)
        } else {
            (e, st3)
        }
    } else {
        (None, st1)
    }
}

#[verifier::opaque]
pub open spec fn sp_if_expression(ts: Seq<TokenV>, st: ParseState) -> (
    Option<ExpressionV>,
    ParseState,
)
    decreases measure(ts, st), 13nat,
{
    let token = cur(ts, st);
    let (ok1, st1) = sp_expect_peek(ts, st, TokenType::Lparen);
    if !ok1 {
        (None, st1)
    } else {
        let st2 = advance(st1);
        if measure(ts, st2) < measure(ts, st) {
            let (c, st3) = sp_expression(ts, st2, lowest());
            match c {
                None => (None, st3),
                Some(condition) => {
                    let (ok4, st4) = sp_expect_peek(ts, st3, TokenType::Rparen);
                    if !ok4 {
                        (None, st4)
                    } else {
                        let (ok5, st5) = sp_expect_peek(ts, st4, TokenType::Lbrace);
                        if !ok5 {
                            (None, st5)
                        } else if measure(ts, st5) < measure(ts, st) {
                            let (consequence, st6) = sp_block_statement(ts, st5);
                            if peek(ts, st6).toke_type == TokenType::Else {
                                let st7 = advance(st6);
                                let (ok8, st8) = sp_expect_peek(ts, st7, TokenType::Lbrace);
                                if !ok8 {
                                    (None, st8)
                                } else if measure(ts, st8) < measure(ts, st) {
                                    let (alt, st9) = sp_block_statement(ts, st8);
                                    (
                                        Some(
                                            ExpressionV::If {
                                                token,
                                                condition: Box::new(condition),
                                                consequence,
                                                alternative: Some(alt),
                                            },
                                        ),
                                        st9,
                                    )
                                } else {
                                    (None, st8)
                                }
                            } else {
                                (
                                    Some(
                                        ExpressionV::If {
                                            token,
                                            condition: Box::new(condition),
                                            consequence,
                                            alternative: None,
                                        },
                                    ),
                                    st6,
                                )
                            }
                        } else {
                            (None, st5)
                        }
                    }
                },
            }
        } else {
            (None, st2)
        }
    }
}

#[verifier::opaque]
pub open spec fn sp_function_literal(ts: Seq<TokenV>, st: ParseState) -> (
    Option<ExpressionV>,
    ParseState,
)
    decreases measure(ts, st), 13nat,
{
    let token = cur(ts, st);
    let (ok1, st1) = sp_expect_peek(ts, st, TokenType::Lparen);
    if !ok1 {
        (None, st1)
    } else {
        let (parameters, st2) = sp_function_parameters(ts, st1);
        let (ok3, st3) = sp_expect_peek(ts, st2, TokenType::Lbrace);
        if !ok3 {
            (None, st3)
        } else if measure(ts, st3) < measure(ts, st) {
            let (body, st4) = sp_block_statement(ts, st3);
            (Some(ExpressionV::FunctionLiteral { token, parameters, body }), st4)
        } else {
            (None, st3)
        }
    }
}

/// The parameter list of a function literal, after its `(`.
#[verifier::opaque]
pub open spec fn sp_function_parameters(ts: Seq<TokenV>, st: ParseState) -> (
    Seq<IdentifierV>,
    ParseState,
) {
    if peek(ts, st).toke_type == TokenType::Rparen {
        (Seq::empty(), advance(st))
    } else {
        let st1 = advance(st);
        let (ids, st2) = sp_parameters_loop(ts, st1, seq![ident_of(cur(ts, st1))]);
        let (ok, st3) = sp_expect_peek(ts, st2, TokenType::Rparen);
        if !ok {
            (Seq::empty(), st3)
        } else {
            (ids, st3)
        }
    }
}

#[verifier::opaque]
pub open spec fn sp_parameters_loop(ts: Seq<TokenV>, st: ParseState, ids: Seq<IdentifierV>) -> (
    Seq<IdentifierV>,
    ParseState,
)
    decreases measure(ts, st),
{
    if peek(ts, st).toke_type == TokenType::Comma {
        let st1 = advance(advance(st));
        if measure(ts, st1) < measure(ts, st) {
            sp_parameters_loop(ts, st1, ids.push(ident_of(cur(ts, st1))))
        } else {
            (ids, st1)
        }
    } else {
        (ids, st)
    }
}

/// The closing `)` of a call's arguments.
pub open spec fn sp_finish_arguments(
    ts: Seq<TokenV>,
    r: (Option<Seq<ExpressionV>>, ParseState),
) -> (Option<Seq<ExpressionV>>, ParseState) {
    match r.0 {
        None => (None, r.1),
        Some(args) => {
            let (ok, st4) = sp_expect_peek(ts, r.1, TokenType::Rparen);
            if !ok {
                (None, st4)
            } else {
                (Some(args), st4)
            }
        },
    }
}

/// The arguments of a call, after its `(`.
#[verifier::opaque]
pub open spec fn sp_call_arguments(ts: Seq<TokenV>, st: ParseState) -> (
    Option<Seq<ExpressionV>>,
    ParseState,
)
    decreases measure(ts, st), 12nat,
{
    if peek(ts, st).toke_type == TokenType::Rparen {
        (Some(Seq::empty()), advance(st))
    } else {
        let st1 = advance(st);
        if measure(ts, st1) < measure(ts, st) {
            let (a, st2) = sp_expression(ts, st1, lowest());
            match a {
                None => (None, st2),
                Some(first) => if measure(ts, st2) < measure(ts, st) {
                    sp_finish_arguments(ts, sp_arguments_loop(ts, st2, seq![first]))
                } else {
                    (None, st2)
                },
            }
        } else {
            (None, st1)
        }
    }
}

#[verifier::opaque]
pub open spec fn sp_arguments_loop(ts: Seq<TokenV>, st: ParseState, acc: Seq<ExpressionV>) -> (
    Option<Seq<ExpressionV>>,
    ParseState,
)
    decreases measure(ts, st), 11nat,
{
    if peek(ts, st).toke_type == TokenType::Comma {
        let st1 = advance(advance(st));
        if measure(ts, st1) < measure(ts, st) {
            let (a, st2) = sp_expression(ts, st1, lowest());
            match a {
                None => (None, st2),
                Some(e) => if measure(ts, st2) < measure(ts, st) {
                    sp_arguments_loop(ts, st2, acc.push(e))
                } else {
                    (None, st2)
                },
            }
        } else {
            (None, st1)
        }
    } else {
        (Some(acc), st)
    }
}

/// The parsing of a block, whose `{` is the current token.
#[verifier::opaque]
pub open spec fn sp_block_statement(ts: Seq<TokenV>, st: ParseState) -> (
    BlockStatementV,
    ParseState,
)
    decreases measure(ts, st), 12nat,
{
    let token = cur(ts, st);
    let st1 = advance(st);
    if measure(ts, st1) < measure(ts, st) {
        let (stmts, st2) = sp_block_loop(ts, st1, Seq::empty());
        (BlockStatementV { token, statements: stmts }, st2)
    } else {
        (BlockStatementV { token, statements: Seq::empty() }, st1)
    }
}

#[verifier::opaque]
pub open spec fn sp_block_loop(ts: Seq<TokenV>, st: ParseState, acc: Seq<StatementV>) -> (
    Seq<StatementV>,
    ParseState,
)
    decreases measure(ts, st), 20nat,
{
    let t = cur(ts, st).toke_type;
    if t == TokenType::Rbrace || t == TokenType::Eof {
        (acc, st)
    } else {
        let (s, st1) = sp_statement(ts, st);
        let acc1 = match s {
            Some(s) => acc.push(s),
            None => acc,
        };
        let st2 = advance(st1);
        if measure(ts, st2) < measure(ts, st) {
            sp_block_loop(ts, st2, acc1)
        } else {
            (acc1, st2)
        }
    }
}

/// The statements of a whole program.
#[verifier::opaque]
pub open spec fn sp_program_loop(ts: Seq<TokenV>, st: ParseState, acc: Seq<StatementV>) -> (
    Seq<StatementV>,
    ParseState,
)
    decreases measure(ts, st),
{
    if cur(ts, st).toke_type == TokenType::Eof {
        (acc, st)
    } else {
        let (s, st1) = sp_statement(ts, st);
        let acc1 = match s {
            Some(s) => acc.push(s),
            None => acc,
        };
        let st2 = advance(st1);
        if measure(ts, st2) < measure(ts, st) {
            sp_program_loop(ts, st2, acc1)
        } else {
            (acc1, st2)
        }
    }
}

/// The program parsed from a token stream, and the errors met on the way.
pub open spec fn parse_tokens(ts: Seq<TokenV>) -> (ProgramV, Seq<Seq<char>>) {
    let (stmts, st) = sp_program_loop(ts, ParseState { idx: 0, errors: Seq::empty() }, Seq::empty());
    (ProgramV { statements: stmts }, st.errors)
}

/// A token stream as the lexer gives it: it ends with its only final token,
/// and integer tokens are non-empty runs of digits.
pub open spec fn stream_ok(ts: Seq<TokenV>) -> bool {
    &&& ts.len() >= 1
    &&& is_final(ts.last())
    &&& forall|i: int| 0 <= i < ts.len() - 1 ==> !is_final(#[trigger] ts[i])
    &&& forall|i: int|
        0 <= i < ts.len() && (#[trigger] ts[i]).toke_type == TokenType::Int ==> ts[i].literal.len()
            > 0 && all_digits(ts[i].literal)
}


/// The rest of the token stream from index `k` on, as the lexer will give it.
pub open spec fn stream_tail(ts: Seq<TokenV>, k: int) -> Seq<TokenV> {
    if k < ts.len() {
        ts.subrange(k, ts.len() as int)
    } else {
        seq![ts.last()]
    }
}

proof fn lemma_lex_ints(s: Seq<char>, p: int)
    requires
        0 <= p,
    ensures
        forall|i: int|
            0 <= i < lex_all(s, p).len() && (#[trigger] lex_all(s, p)[i]).toke_type
                == TokenType::Int ==> lex_all(s, p)[i].literal.len() > 0 && all_digits(
                lex_all(s, p)[i].literal,
            ),
    decreases s.len() + 1 - p,
{
    lemma_lex_all(s, p);
    lemma_lex_next(s, p);
    let (t, p2) = lex_next(s, p);
    let q = crate::lexer::skip_ws(s, p);
    crate::lexer::lemma_skip_ws(s, p);
    if q < s.len() && digit(s[q]) && !crate::utils::letter(s[q]) {
        crate::lexer::lemma_number_end(s, q);
        crate::lexer::lemma_number_end(s, q + 1);
        assert(crate::lexer::number_end(s, q) == crate::lexer::number_end(s, q + 1));
    }
    if !is_final(t) {
        lemma_lex_ints(s, p2);
        assert forall|i: int|
            0 <= i < lex_all(s, p).len() && (#[trigger] lex_all(s, p)[i]).toke_type
                == TokenType::Int implies lex_all(s, p)[i].literal.len() > 0 && all_digits(
            lex_all(s, p)[i].literal,
        ) by {
            if i > 0 {
                assert(lex_all(s, p)[i] == lex_all(s, p2)[i - 1]);
            }
        }
    }
}

/// The lexer's stream from `p` is a well formed token stream.
pub proof fn lemma_stream_ok(s: Seq<char>, p: int)
    requires
        0 <= p,
    ensures
        stream_ok(lex_all(s, p)),
{
    lemma_lex_all(s, p);
    lemma_lex_ints(s, p);
}

/// One step of the lexer gives the next token of the stream.
proof fn lemma_stream_step(s: Seq<char>, p: int, ts: Seq<TokenV>, k: int)
    requires
        0 <= p,
        0 <= k,
        stream_ok(ts),
        lex_all(s, p) == stream_tail(ts, k),
    ensures
        lex_next(s, p).0 == tok_at(ts, k),
        0 <= lex_next(s, p).1,
        lex_all(s, lex_next(s, p).1) == stream_tail(ts, k + 1),
{
    lemma_lex_all(s, p);
    lemma_lex_next(s, p);
    let (t, p2) = lex_next(s, p);
    if k < ts.len() {
        assert(stream_tail(ts, k)[0] == ts[k]);
        if is_final(t) {
            assert(k == ts.len() - 1);
            assert(stream_tail(ts, k) =~= seq![ts.last()]);
        } else {
            assert(k < ts.len() - 1);
            assert(lex_all(s, p2) =~= stream_tail(ts, k + 1)) by {
                assert(lex_all(s, p) == seq![t] + lex_all(s, p2));
                assert(lex_all(s, p2) =~= lex_all(s, p).subrange(1, lex_all(s, p).len() as int));
            }
        }
    } else {
        assert(t == ts.last());
    }
}

/// Moving on does not add tokens, and moving past a token that is not the
/// end of input uses one up.
proof fn lemma_advance(ts: Seq<TokenV>, st: ParseState)
    requires
        stream_ok(ts),
        ts.last().toke_type == TokenType::Eof,
        st.idx >= 0,
    ensures
        measure(ts, advance(st)) <= measure(ts, st),
        cur(ts, st).toke_type != TokenType::Eof ==> measure(ts, advance(st)) < measure(ts, st),
        cur(ts, st).toke_type != TokenType::Eof ==> st.idx < ts.len() - 1,
        peek(ts, st).toke_type != TokenType::Eof ==> measure(ts, advance(advance(st))) < measure(
            ts,
            st,
        ),
{
    if st.idx < ts.len() - 1 {
        assert(!is_final(ts[st.idx]));
    }
    if st.idx + 1 < ts.len() - 1 {
        assert(!is_final(ts[st.idx + 1]));
    }
}

pub open spec fn strings_view(v: Seq<String>) -> Seq<Seq<char>> {
    Seq::new(v.len(), |i: int| v[i]@)
}

pub open spec fn opt_expr_view(o: Option<ast::Expression>) -> Option<ExpressionV> {
    match o {
        Some(e) => Some(e@),
        None => None,
    }
}

pub open spec fn opt_stmt_view(o: Option<ast::Statement>) -> Option<StatementV> {
    match o {
        Some(s) => Some(s@),
        None => None,
    }
}

pub struct Parser<'a> {
    lexer: Lexer<'a>,
    errors: Vec<String>,
    current_token: Token,
    peek_token: Token,
    tokens: Ghost<Seq<TokenV>>,
    idx: Ghost<int>,
}

impl<'a> Parser<'a> {
    /// The token stream the parser reads, from its first token on.
    pub closed spec fn tokens(&self) -> Seq<TokenV> {
        self.tokens@
    }

    /// Where the parser stands, and the errors it has recorded.
    pub closed spec fn state(&self) -> ParseState {
        ParseState { idx: self.idx@, errors: strings_view(self.errors@) }
    }

    pub closed spec fn wf(&self) -> bool {
        &&& self.lexer.wf()
        &&& stream_ok(self.tokens@)
        &&& 0 <= self.idx@
        &&& self.current_token@ == tok_at(self.tokens@, self.idx@)
        &&& self.peek_token@ == tok_at(self.tokens@, self.idx@ + 1)
        &&& lex_all(self.lexer.text(), self.lexer.pos()) == stream_tail(
            self.tokens@,
            self.idx@ + 2,
        )
        &&& self.peek_token@.toke_type != TokenType::Eof ==> self.lexer.pos()
            <= self.lexer.text().len() + 1
    }

    /// The stream ends at the end of the input, not at an illegal character.
    pub open spec fn ends_at_eof(&self) -> bool {
        self.tokens().last().toke_type == TokenType::Eof
    }

    pub proof fn lemma_wf(&self)
        requires
            self.wf(),
        ensures
            stream_ok(self.tokens()),
            self.state().idx >= 0,
    {
    }

    pub fn new(lexer: Lexer<'a>) -> (p: Parser<'a>)
        requires
            lexer.wf(),
            lexer.pos() < usize::MAX - 2,
        ensures
            p.wf(),
            p.tokens() == lex_all(lexer.text(), lexer.pos()),
            p.state() == (ParseState { idx: 0, errors: Seq::empty() }),
    {
        let mut lexer = lexer;
        let ghost s = lexer.text();
        let ghost ts = lex_all(lexer.text(), lexer.pos());
        proof {
            lexer.lemma_wf();
            lemma_stream_ok(s, lexer.pos());
            assert(lex_all(s, lexer.pos()) =~= stream_tail(ts, 0));
            lemma_stream_step(s, lexer.pos(), ts, 0);
        }
        let ghost p0 = lexer.pos();
        let current_token = lexer.next_token();
        proof {
            lemma_lex_next(s, p0);
            lexer.lemma_wf();
            lemma_stream_step(s, lexer.pos(), ts, 1);
        }
        let ghost p1 = lexer.pos();
        let peek_token = lexer.next_token();
        proof {
            lemma_lex_next(s, p1);
        }
        let p = Parser {
            lexer,
            errors: Vec::new(),
            current_token,
            peek_token,
            tokens: Ghost(ts),
            idx: Ghost(0),
        };
        assert(p.state() =~= (ParseState { idx: 0, errors: Seq::empty() }));
        p
    }

    fn next_token(&mut self)
        requires
            old(self).wf(),
        ensures
            final(self).wf(),
            final(self).tokens() == old(self).tokens(),
            errors_kept(old(self).state(), final(self).state()),
            final(self).state() == advance(old(self).state()),
    {
        let ghost ts = self.tokens@;
        let ghost p = self.lexer.pos();
        proof {
            self.lexer.lemma_wf();
            lemma_stream_step(self.lexer.text(), p, ts, self.idx@ + 2);
            lemma_lex_next(self.lexer.text(), p);
            if self.idx@ + 1 < ts.len() - 1 {
                assert(!is_final(ts[self.idx@ + 1]));
            }
        }
        // Once the input has ended, the next token is the same end of input:
        // the lexer, which would give it again, is not asked.
        let mut t = if self.peek_token.toke_type == TokenType::Eof {
            self.peek_token.duplicate()
        } else {
            self.lexer.next_token()
        };
        std::mem::swap(&mut self.peek_token, &mut t);
        self.current_token = t;
        self.idx = Ghost(self.idx@ + 1);
    }

    fn current_token_is(&self, token_type: TokenType) -> (r: bool)
        requires
            self.wf(),
        ensures
            r == (cur(self.tokens(), self.state()).toke_type == token_type),
    {
        self.current_token.toke_type == token_type
    }

    fn peek_token_is(&self, token_type: TokenType) -> (r: bool)
        requires
            self.wf(),
        ensures
            r == (peek(self.tokens(), self.state()).toke_type == token_type),
    {
        self.peek_token.toke_type == token_type
    }

    fn expect_peek(&mut self, token_type: TokenType) -> (r: bool)
        requires
            old(self).wf(),
        ensures
            final(self).wf(),
            final(self).tokens() == old(self).tokens(),
            errors_kept(old(self).state(), final(self).state()),
            r == sp_expect_peek(old(self).tokens(), old(self).state(), token_type).0,
            final(self).state() == sp_expect_peek(
                old(self).tokens(),
                old(self).state(),
                token_type,
            ).1,
    {
        if self.peek_token_is(token_type) {
            self.next_token();
            true
        } else {
            self.peek_error(token_type);
            false
        }
    }

    pub fn get_errors(&self) -> (r: Vec<String>)
        ensures
            strings_view(r@) == self.state().errors,
    {
        let mut out: Vec<String> = Vec::new();
        let n = self.errors.len();
        let mut i: usize = 0;
        while i < n
            invariant
                n == self.errors@.len(),
                i <= n,
                strings_view(out@) =~= strings_view(self.errors@).subrange(0, i as int),
            decreases n - i,
        {
            let e = self.errors[i].clone();
            let ghost before = out@;
            out.push(e);
            assert(strings_view(out@) =~= strings_view(before).push(self.errors@[i as int]@));
            i = i + 1;
        }
        assert(strings_view(self.errors@).subrange(0, n as int) =~= strings_view(self.errors@));
        out
    }

    fn push_error(&mut self, msg: String)
        requires
            old(self).wf(),
        ensures
            final(self).wf(),
            final(self).tokens() == old(self).tokens(),
            errors_kept(old(self).state(), final(self).state()),
            final(self).state() == add_error(old(self).state(), msg@),
    {
        self.errors.push(msg);
        assert(self.state() =~= add_error(old(self).state(), msg@));
    }

    fn peek_error(&mut self, token_type: TokenType)
        requires
            old(self).wf(),
        ensures
            final(self).wf(),
            final(self).tokens() == old(self).tokens(),
            errors_kept(old(self).state(), final(self).state()),
            final(self).state() == add_error(
                old(self).state(),
                peek_error_msg(token_type, peek(old(self).tokens(), old(self).state()).toke_type),
            ),
    {
        let mut msg = String::from_str("expected next token to be \"");
        msg.append(token_type.name());
        msg.append("\", got \"");
        msg.append(self.peek_token.toke_type.name());
        msg.append("\" instead");
        assert(msg@ =~= peek_error_msg(token_type, peek(self.tokens(), self.state()).toke_type));
        self.push_error(msg);
    }

    fn no_prefix_parse_fn_error(&mut self, token_type: TokenType)
        requires
            old(self).wf(),
        ensures
            final(self).wf(),
            final(self).tokens() == old(self).tokens(),
            errors_kept(old(self).state(), final(self).state()),
            final(self).state() == add_error(old(self).state(), no_prefix_msg(token_type)),
    {
        let mut msg = String::from_str("no prefix parse function for ");
        msg.append(token_type.name());
        msg.append(" found");
        assert(msg@ =~= no_prefix_msg(token_type));
        self.push_error(msg);
    }
}


proof fn lemma_digits_step(s: Seq<char>, j: int)
    requires
        0 <= j < s.len(),
    ensures
        digits_val(s.subrange(0, j + 1)) == digits_val(s.subrange(0, j)) * 10 + ((s[j] as int)
            - 48) as nat,
{
    assert(s.subrange(0, j + 1).subrange(0, j) =~= s.subrange(0, j));
}

proof fn lemma_digits_mono(s: Seq<char>, j: int)
    requires
        0 <= j <= s.len(),
        all_digits(s),
    ensures
        digits_val(s.subrange(0, j)) <= digits_val(s),
    decreases s.len() - j,
{
    if j < s.len() {
        lemma_digits_step(s, j);
        lemma_digits_mono(s, j + 1);
    } else {
        assert(s.subrange(0, j) =~= s);
    }
}

/// The value of a string of decimal digits, when it fits in an `i64`
/// (`str::parse::<i64>` on such a string).
fn parse_decimal(s: &str) -> (r: Option<i64>)
    requires
        all_digits(s@),
    ensures
        r == if digits_val(s@) <= i64::MAX {
            Some(digits_val(s@) as i64)
        } else {
            None::<i64>
        },
{
    let n = s.unicode_len();
    let mut acc: i64 = 0;
    let mut i: usize = 0;
    assert(s@.subrange(0, 0) =~= Seq::<char>::empty());
    while i < n
        invariant
            n == s@.len(),
            i <= n,
            all_digits(s@),
            0 <= acc,
            acc as nat == digits_val(s@.subrange(0, i as int)),
        decreases n - i,
    {
        let c = s.get_char(i);
        assert(digit(s@[i as int]));
        assert(48 <= (c as u32) <= 57);
        let d = (c as u32 - 48) as i64;
        proof {
            lemma_digits_step(s@, i as int);
        }
        if acc > (i64::MAX - d) / 10 {
            proof {
                lemma_digits_mono(s@, i + 1);
            }
            return None;
        }
        acc = acc * 10 + d;
        i = i + 1;
    }
    assert(s@.subrange(0, n as int) =~= s@);
    Some(acc)
}

proof fn lemma_exprs_view_push(s: Seq<ast::Expression>, e: ast::Expression)
    ensures
        ast::exprs_view(s.push(e)) == ast::exprs_view(s).push(e@),
{
    assert(s.push(e).subrange(0, s.len() as int) =~= s);
}

proof fn lemma_stmts_view_push(s: Seq<ast::Statement>, e: ast::Statement)
    ensures
        ast::stmts_view(s.push(e)) == ast::stmts_view(s).push(e@),
{
    assert(s.push(e).subrange(0, s.len() as int) =~= s);
}

proof fn lemma_idents_view_push(s: Seq<ast::Identifier>, e: ast::Identifier)
    ensures
        ast::idents_view(s.push(e)) == ast::idents_view(s).push(e@),
{
    assert(s.push(e).subrange(0, s.len() as int) =~= s);
}

fn has_prefix_fn(t: TokenType) -> (r: bool)
    ensures
        r == has_prefix(t),
{
    match t {
        TokenType::Ident | TokenType::Int | TokenType::Bang | TokenType::Minus | TokenType::If
        | TokenType::False | TokenType::True | TokenType::Lparen | TokenType::Function
        | TokenType::String => true,
        _ => false,
    }
}

fn has_infix_fn(t: TokenType) -> (r: bool)
    ensures
        r == has_infix(t),
{
    match t {
        TokenType::Plus | TokenType::Minus | TokenType::Slash | TokenType::Asterisk
        | TokenType::Eq | TokenType::NotEq | TokenType::Lt | TokenType::Gt
        | TokenType::Lparen => true,
        _ => false,
    }
}

impl<'a> Parser<'a> {
    #[verifier::spinoff_prover]
    pub fn parse_program(&mut self) -> (r: Option<ast::Program>)
        requires
            old(self).wf(),
            old(self).ends_at_eof(),
        ensures
            final(self).wf(),
            final(self).tokens() == old(self).tokens(),
            errors_kept(old(self).state(), final(self).state()),
            r matches Some(p) && p@.statements == sp_program_loop(
                old(self).tokens(),
                old(self).state(),
                Seq::empty(),
            ).0,
            final(self).state() == sp_program_loop(
                old(self).tokens(),
                old(self).state(),
                Seq::empty(),
            ).1,
            cur(final(self).tokens(), final(self).state()).toke_type == TokenType::Eof,
    {
        proof {
            reveal(sp_program_loop);
        }
        let ghost ts = self.tokens();
        let mut statements: Vec<ast::Statement> = Vec::new();
        let ghost target = sp_program_loop(ts, self.state(), Seq::empty());
        while !self.current_token_is(TokenType::Eof)
            invariant
                self.wf(),
                errors_kept(old(self).state(), self.state()),
                self.ends_at_eof(),
                self.tokens() == ts,
                ts == old(self).tokens(),
                sp_program_loop(ts, self.state(), ast::stmts_view(statements@)) == target,
            decreases measure(ts, self.state()),
        {
            proof {
                reveal(sp_program_loop);
            }
            proof {
                lemma_advance(ts, self.state());
            }
            let ghost st = self.state();
            let ghost before = statements@;
            if let Some(statement) = self.parse_statement() {
                proof {
                    lemma_stmts_view_push(before, statement);
                }
                statements.push(statement);
            }
            proof {
                lemma_advance(ts, self.state());
            }
            self.next_token();
        }
        Some(ast::Program { statements })
    }

    fn current_identifier(&self) -> (r: ast::Identifier)
        requires
            self.wf(),
        ensures
            r@ == ident_of(cur(self.tokens(), self.state())),
    {
        ast::Identifier {
            token: self.current_token.duplicate(),
            value: self.current_token.literal.clone(),
        }
    }

    #[verifier::spinoff_prover]
    fn parse_statement(&mut self) -> (r: Option<ast::Statement>)
        requires
            old(self).wf(),
            old(self).ends_at_eof(),
        ensures
            final(self).wf(),
            final(self).tokens() == old(self).tokens(),
            errors_kept(old(self).state(), final(self).state()),
            opt_stmt_view(r) == sp_statement(old(self).tokens(), old(self).state()).0,
            final(self).state() == sp_statement(old(self).tokens(), old(self).state()).1,
            measure(old(self).tokens(), final(self).state()) <= measure(
                old(self).tokens(),
                old(self).state(),
            ),
        decreases measure(old(self).tokens(), old(self).state()), 19nat,
    {
        proof {
            reveal(sp_statement);
        }
        match self.current_token.toke_type {
            TokenType::Let => self.parse_let_statement(),
            TokenType::Return => self.parse_return_statement(),
            _ => self.parse_expression_statement(),
        }
    }

    #[verifier::spinoff_prover]
    fn parse_let_statement(&mut self) -> (r: Option<ast::Statement>)
        requires
            old(self).wf(),
            old(self).ends_at_eof(),
            cur(old(self).tokens(), old(self).state()).toke_type == TokenType::Let,
        ensures
            final(self).wf(),
            final(self).tokens() == old(self).tokens(),
            errors_kept(old(self).state(), final(self).state()),
            opt_stmt_view(r) == sp_let_statement(old(self).tokens(), old(self).state()).0,
            final(self).state() == sp_let_statement(old(self).tokens(), old(self).state()).1,
            measure(old(self).tokens(), final(self).state()) <= measure(
                old(self).tokens(),
                old(self).state(),
            ),
        decreases measure(old(self).tokens(), old(self).state()), 18nat,
    {
        proof {
            reveal(sp_let_statement);
        }
        let ghost ts = self.tokens();
        let ghost st0 = self.state();
        proof {
            lemma_advance(ts, st0);
        }
        let let_token = self.current_token.duplicate();
        if !self.expect_peek(TokenType::Ident) {
            return None;
        }
        let name = self.current_identifier();
        proof {
            lemma_advance(ts, self.state());
        }
        if !self.expect_peek(TokenType::Assign) {
            return None;
        }
        proof {
            lemma_advance(ts, self.state());
        }
        self.next_token();
        let ghost pre = self.state();
        let res = self.parse_expression(Precedence::Lowest);
        let value = match res {
            Some(v) => v,
            None => {
                assert(sp_expression(ts, pre, lowest()).0 is None);
                return None;
            },
        };
        proof {
            lemma_advance(ts, self.state());
        }
        if self.peek_token_is(TokenType::Semicolon) {
            self.next_token();
        }
        Some(ast::Statement::Let(ast::LetStatement { token: let_token, name, value }))
    }

    #[verifier::spinoff_prover]
    fn parse_return_statement(&mut self) -> (r: Option<ast::Statement>)
        requires
            old(self).wf(),
            old(self).ends_at_eof(),
            cur(old(self).tokens(), old(self).state()).toke_type == TokenType::Return,
        ensures
            final(self).wf(),
            final(self).tokens() == old(self).tokens(),
            errors_kept(old(self).state(), final(self).state()),
            opt_stmt_view(r) == sp_return_statement(old(self).tokens(), old(self).state()).0,
            final(self).state() == sp_return_statement(old(self).tokens(), old(self).state()).1,
            measure(old(self).tokens(), final(self).state()) <= measure(
                old(self).tokens(),
                old(self).state(),
            ),
        decreases measure(old(self).tokens(), old(self).state()), 18nat,
    {
        proof {
            reveal(sp_return_statement);
        }
        let ghost ts = self.tokens();
        proof {
            lemma_advance(ts, self.state());
        }
        let token = self.current_token.duplicate();
        self.next_token();
        let return_value = match self.parse_expression(Precedence::Lowest) {
            Some(v) => Some(Box::new(v)),
            None => None,
        };
        proof {
            lemma_advance(ts, self.state());
        }
        if self.peek_token_is(TokenType::Semicolon) {
            self.next_token();
        }
        Some(ast::Statement::Return(ast::ReturnStatement { token, return_value }))
    }

    #[verifier::spinoff_prover]
    fn parse_expression_statement(&mut self) -> (r: Option<ast::Statement>)
        requires
            old(self).wf(),
            old(self).ends_at_eof(),
        ensures
            final(self).wf(),
            final(self).tokens() == old(self).tokens(),
            errors_kept(old(self).state(), final(self).state()),
            opt_stmt_view(r) == sp_expression_statement(old(self).tokens(), old(self).state()).0,
            final(self).state() == sp_expression_statement(
                old(self).tokens(),
                old(self).state(),
            ).1,
            measure(old(self).tokens(), final(self).state()) <= measure(
                old(self).tokens(),
                old(self).state(),
            ),
        decreases measure(old(self).tokens(), old(self).state()), 18nat,
    {
        proof {
            reveal(sp_expression_statement);
        }
        let ghost ts = self.tokens();
        let ghost st0 = self.state();
        let token = self.current_token.duplicate();
        let e = self.parse_expression(Precedence::Lowest);
        let expression = match e {
            Some(e) => e,
            None => {
                return None;
            },
        };
        let stmt = ast::ExpressionStatement { token, expression: Box::new(expression) };
        proof {
            lemma_advance(ts, self.state());
        }
        if self.peek_token_is(TokenType::Semicolon) {
            self.next_token();
        }
        Some(ast::Statement::Expression(stmt))
    }

    #[verifier::spinoff_prover]
    fn parse_expression(&mut self, precedence: Precedence) -> (r: Option<ast::Expression>)
        requires
            old(self).wf(),
            old(self).ends_at_eof(),
        ensures
            final(self).wf(),
            final(self).tokens() == old(self).tokens(),
            errors_kept(old(self).state(), final(self).state()),
            opt_expr_view(r) == sp_expression(
                old(self).tokens(),
                old(self).state(),
                precedence.spec_level(),
            ).0,
            final(self).state() == sp_expression(
                old(self).tokens(),
                old(self).state(),
                precedence.spec_level(),
            ).1,
            measure(old(self).tokens(), final(self).state()) <= measure(
                old(self).tokens(),
                old(self).state(),
            ),
        decreases measure(old(self).tokens(), old(self).state()), 17nat,
    {
        proof {
            reveal(sp_expression);
            reveal(sp_expression_loop);
        }
        let ghost ts = self.tokens();
        let ghost st0 = self.state();
        let ghost prec = precedence.spec_level();
        let t = self.current_token.toke_type;
        if !has_prefix_fn(t) {
            self.no_prefix_parse_fn_error(t);
            return None;
        }
        let ghost pre = self.state();
        let res = self.parse_prefix();
        let mut left_exp = match res {
            Some(e) => e,
            None => {
                assert(sp_prefix(ts, pre).0 is None);
                return None;
            },
        };
        let ghost target = sp_expression_loop(ts, self.state(), prec, left_exp@);
        while !self.peek_token_is(TokenType::Semicolon) && precedence.level()
            < self.peek_precedence().level()
            invariant
                self.wf(),
                errors_kept(old(self).state(), self.state()),
                self.ends_at_eof(),
                self.tokens() == ts,
                ts == old(self).tokens(),
                measure(ts, self.state()) <= measure(ts, st0),
                st0 == old(self).state(),
                prec == precedence.spec_level(),
                sp_expression_loop(ts, self.state(), prec, left_exp@) == target,
                target == sp_expression(ts, st0, prec),
            decreases measure(ts, self.state()),
        {
            proof {
                reveal(sp_expression_loop);
            }
            let ghost st = self.state();
            let ghost l = left_exp@;
            assert(sp_expression_loop(ts, st, prec, l) == target);
            let pt = self.peek_token.toke_type;
            if !has_infix_fn(pt) {
                return Some(left_exp);
            }
            proof {
                lemma_advance(ts, self.state());
            }
            self.next_token();
            let ghost pre = self.state();
            let r = self.parse_infix(left_exp);
            assert(measure(ts, self.state()) < measure(ts, st));
            left_exp = match r {
                Some(e) => e,
                None => {
                    assert(sp_infix(ts, pre, l).0 is None);
                    return None;
                },
            };
        }
        Some(left_exp)
    }

    #[verifier::spinoff_prover]
    fn parse_prefix(&mut self) -> (r: Option<ast::Expression>)
        requires
            old(self).wf(),
            old(self).ends_at_eof(),
            has_prefix(cur(old(self).tokens(), old(self).state()).toke_type),
        ensures
            final(self).wf(),
            final(self).tokens() == old(self).tokens(),
            errors_kept(old(self).state(), final(self).state()),
            opt_expr_view(r) == sp_prefix(old(self).tokens(), old(self).state()).0,
            final(self).state() == sp_prefix(old(self).tokens(), old(self).state()).1,
            measure(old(self).tokens(), final(self).state()) <= measure(
                old(self).tokens(),
                old(self).state(),
            ),
        decreases measure(old(self).tokens(), old(self).state()), 16nat,
    {
        proof {
            reveal(sp_prefix);
        }
        match self.current_token.toke_type {
            TokenType::Ident => self.parse_identifier(),
            TokenType::Int => self.parse_integer_literal(),
            TokenType::Bang | TokenType::Minus => self.parse_prefix_expression(),
            TokenType::If => self.parse_if_expression(),
            TokenType::True | TokenType::False => self.parse_boolean_expression(),
            TokenType::Lparen => self.parse_grouped_expression(),
            TokenType::Function => self.parse_function_literal(),
            _ => self.parse_string_literal(),
        }
    }

    #[verifier::spinoff_prover]
    fn parse_infix(&mut self, left: ast::Expression) -> (r: Option<ast::Expression>)
        requires
            old(self).wf(),
            old(self).ends_at_eof(),
            has_infix(cur(old(self).tokens(), old(self).state()).toke_type),
        ensures
            final(self).wf(),
            final(self).tokens() == old(self).tokens(),
            errors_kept(old(self).state(), final(self).state()),
            opt_expr_view(r) == sp_infix(old(self).tokens(), old(self).state(), left@).0,
            final(self).state() == sp_infix(old(self).tokens(), old(self).state(), left@).1,
            measure(old(self).tokens(), final(self).state()) < measure(
                old(self).tokens(),
                old(self).state(),
            ),
        decreases measure(old(self).tokens(), old(self).state()), 14nat,
    {
        proof {
            reveal(sp_infix);
        }
        if self.current_token_is(TokenType::Lparen) {
            self.parse_call_expression(left)
        } else {
            self.parse_infix_expression(left)
        }
    }

    #[verifier::spinoff_prover]
    fn parse_identifier(&mut self) -> (r: Option<ast::Expression>)
        requires
            old(self).wf(),
        ensures
            final(self).wf(),
            final(self).tokens() == old(self).tokens(),
            errors_kept(old(self).state(), final(self).state()),
            final(self).state() == old(self).state(),
            opt_expr_view(r) == Some(
                ExpressionV::Identifier(ident_of(cur(old(self).tokens(), old(self).state()))),
            ),
    {
        Some(ast::Expression::Identifier(self.current_identifier()))
    }

    #[verifier::spinoff_prover]
    fn parse_integer_literal(&mut self) -> (r: Option<ast::Expression>)
        requires
            old(self).wf(),
            cur(old(self).tokens(), old(self).state()).toke_type == TokenType::Int,
        ensures
            final(self).wf(),
            final(self).tokens() == old(self).tokens(),
            errors_kept(old(self).state(), final(self).state()),
            opt_expr_view(r) == sp_integer_literal(old(self).tokens(), old(self).state()).0,
            final(self).state() == sp_integer_literal(old(self).tokens(), old(self).state()).1,
    {
        proof {
            let ts = self.tokens();
            let i = self.state().idx;
            if 0 <= i < ts.len() {
                assert(ts[i].toke_type == TokenType::Int);
            } else {
                assert(ts[ts.len() - 1].toke_type == TokenType::Int);
            }
        }
        match parse_decimal(self.current_token.literal.as_str()) {
            Some(value) => Some(
                ast::Expression::IntegerLiteral(
                    ast::IntegerLiteral { token: self.current_token.duplicate(), value },
                ),
            ),
            None => {
                let mut msg = String::from_str("could not parse ");
                msg.append(self.current_token.literal.as_str());
                msg.append(" as integer, ");
                msg.append("number too large to fit in target type");
                assert(msg@ =~= int_error_msg(self.current_token.literal@));
                self.push_error(msg);
                None
            },
        }
    }

    #[verifier::spinoff_prover]
    fn parse_prefix_expression(&mut self) -> (r: Option<ast::Expression>)
        requires
            old(self).wf(),
            old(self).ends_at_eof(),
            cur(old(self).tokens(), old(self).state()).toke_type == TokenType::Bang || cur(
                old(self).tokens(),
                old(self).state(),
            ).toke_type == TokenType::Minus,
        ensures
            final(self).wf(),
            final(self).tokens() == old(self).tokens(),
            errors_kept(old(self).state(), final(self).state()),
            opt_expr_view(r) == sp_prefix_expression(old(self).tokens(), old(self).state()).0,
            final(self).state() == sp_prefix_expression(old(self).tokens(), old(self).state()).1,
            measure(old(self).tokens(), final(self).state()) < measure(
                old(self).tokens(),
                old(self).state(),
            ),
        decreases measure(old(self).tokens(), old(self).state()), 13nat,
    {
        proof {
            reveal(sp_prefix_expression);
        }
        let ghost ts = self.tokens();
        proof {
            lemma_advance(ts, self.state());
        }
        let token = self.current_token.duplicate();
        let operator = self.current_token.literal.clone();
        self.next_token();
        let ghost pre = self.state();
        let res = self.parse_expression(Precedence::Prefix);
        let right = match res {
            Some(e) => e,
            None => {
                assert(sp_expression(ts, pre, prefix_prec()).0 is None);
                return None;
            },
        };
        Some(ast::Expression::Prefix(ast::PrefixExpression { token, operator, right: Box::new(right) }))
    }

    #[verifier::spinoff_prover]
    fn parse_infix_expression(&mut self, left: ast::Expression) -> (r: Option<ast::Expression>)
        requires
            old(self).wf(),
            old(self).ends_at_eof(),
            has_infix(cur(old(self).tokens(), old(self).state()).toke_type),
            cur(old(self).tokens(), old(self).state()).toke_type != TokenType::Lparen,
        ensures
            final(self).wf(),
            final(self).tokens() == old(self).tokens(),
            errors_kept(old(self).state(), final(self).state()),
            opt_expr_view(r) == sp_infix(old(self).tokens(), old(self).state(), left@).0,
            final(self).state() == sp_infix(old(self).tokens(), old(self).state(), left@).1,
            measure(old(self).tokens(), final(self).state()) < measure(
                old(self).tokens(),
                old(self).state(),
            ),
        decreases measure(old(self).tokens(), old(self).state()), 13nat,
    {
        proof {
            reveal(sp_infix);
        }
        let ghost ts = self.tokens();
        proof {
            lemma_advance(ts, self.state());
        }
        let token = self.current_token.duplicate();
        let operator = self.current_token.literal.clone();
        let precedence = self.current_precedence();
        self.next_token();
        let ghost pre = self.state();
        let res = self.parse_expression(precedence);
        let right = match res {
            Some(e) => e,
            None => {
                assert(sp_expression(ts, pre, precedence.spec_level()).0 is None);
                return None;
            },
        };
        Some(
            ast::Expression::Infix(
                ast::InfixExpression { token, left: Box::new(left), operator, right: Box::new(right) },
            ),
        )
    }

    #[verifier::spinoff_prover]
    fn parse_grouped_expression(&mut self) -> (r: Option<ast::Expression>)
        requires
            old(self).wf(),
            old(self).ends_at_eof(),
            cur(old(self).tokens(), old(self).state()).toke_type == TokenType::Lparen,
        ensures
            final(self).wf(),
            final(self).tokens() == old(self).tokens(),
            errors_kept(old(self).state(), final(self).state()),
            opt_expr_view(r) == sp_grouped_expression(old(self).tokens(), old(self).state()).0,
            final(self).state() == sp_grouped_expression(old(self).tokens(), old(self).state()).1,
            measure(old(self).tokens(), final(self).state()) < measure(
                old(self).tokens(),
                old(self).state(),
            ),
        decreases measure(old(self).tokens(), old(self).state()), 13nat,
    {
        proof {
            reveal(sp_grouped_expression);
        }
        let ghost ts = self.tokens();
        proof {
            lemma_advance(ts, self.state());
        }
        self.next_token();
        let expression = self.parse_expression(Precedence::Lowest);
        proof {
            lemma_advance(ts, self.state());
        }
        if !self.expect_peek(TokenType::Rparen) {
            return None;
        }
        expression
    }

    #[verifier::spinoff_prover]
    fn parse_boolean_expression(&mut self) -> (r: Option<ast::Expression>)
        requires
            old(self).wf(),
        ensures
            final(self).wf(),
            final(self).tokens() == old(self).tokens(),
            errors_kept(old(self).state(), final(self).state()),
            final(self).state() == old(self).state(),
            opt_expr_view(r) == Some(
                ExpressionV::Boolean {
                    token: cur(old(self).tokens(), old(self).state()),
                    value: cur(old(self).tokens(), old(self).state()).toke_type == TokenType::True,
                },
            ),
    {
        Some(
            ast::Expression::Boolean(
                ast::Boolean {
                    token: self.current_token.duplicate(),
                    value: self.current_token_is(TokenType::True),
                },
            ),
        )
    }

    #[verifier::spinoff_prover]
    fn parse_string_literal(&mut self) -> (r: Option<ast::Expression>)
        requires
            old(self).wf(),
        ensures
            final(self).wf(),
            final(self).tokens() == old(self).tokens(),
            errors_kept(old(self).state(), final(self).state()),
            final(self).state() == old(self).state(),
            opt_expr_view(r) == Some(
                ExpressionV::StringLiteral {
                    token: cur(old(self).tokens(), old(self).state()),
                    value: cur(old(self).tokens(), old(self).state()).literal,
                },
            ),
    {
        Some(
            ast::Expression::StringLiteral(
                ast::StringLiteral {
                    token: self.current_token.duplicate(),
                    value: self.current_token.literal.clone(),
                },
            ),
        )
    }

    #[verifier::spinoff_prover]
    fn parse_if_expression(&mut self) -> (r: Option<ast::Expression>)
        requires
            old(self).wf(),
            old(self).ends_at_eof(),
            cur(old(self).tokens(), old(self).state()).toke_type == TokenType::If,
        ensures
            final(self).wf(),
            final(self).tokens() == old(self).tokens(),
            errors_kept(old(self).state(), final(self).state()),
            opt_expr_view(r) == sp_if_expression(old(self).tokens(), old(self).state()).0,
            final(self).state() == sp_if_expression(old(self).tokens(), old(self).state()).1,
            measure(old(self).tokens(), final(self).state()) <= measure(
                old(self).tokens(),
                old(self).state(),
            ),
        decreases measure(old(self).tokens(), old(self).state()), 13nat,
    {
        proof {
            reveal(sp_if_expression);
        }
        let ghost ts = self.tokens();
        let ghost st0 = self.state();
        proof {
            lemma_advance(ts, self.state());
        }
        let token = self.current_token.duplicate();
        if !self.expect_peek(TokenType::Lparen) {
            return None;
        }
        proof {
            lemma_advance(ts, self.state());
        }
        self.next_token();
        let ghost pre = self.state();
        let res = self.parse_expression(Precedence::Lowest);
        let condition = match res {
            Some(c) => c,
            None => {
                assert(sp_expression(ts, pre, lowest()).0 is None);
                return None;
            },
        };
        proof {
            lemma_advance(ts, self.state());
        }
        if !self.expect_peek(TokenType::Rparen) {
            return None;
        }
        proof {
            lemma_advance(ts, self.state());
        }
        if !self.expect_peek(TokenType::Lbrace) {
            return None;
        }
        let consequence = self.parse_block_statement();
        proof {
            lemma_advance(ts, self.state());
        }
        let alternative = if self.peek_token_is(TokenType::Else) {
            self.next_token();
            proof {
                lemma_advance(ts, self.state());
            }
            if !self.expect_peek(TokenType::Lbrace) {
                return None;
            }
            Some(self.parse_block_statement())
        } else {
            None
        };
        Some(
            ast::Expression::If(
                ast::IfExpression { token, condition: Box::new(condition), consequence, alternative },
            ),
        )
    }

    #[verifier::spinoff_prover]
    fn parse_function_literal(&mut self) -> (r: Option<ast::Expression>)
        requires
            old(self).wf(),
            old(self).ends_at_eof(),
            cur(old(self).tokens(), old(self).state()).toke_type == TokenType::Function,
        ensures
            final(self).wf(),
            final(self).tokens() == old(self).tokens(),
            errors_kept(old(self).state(), final(self).state()),
            opt_expr_view(r) == sp_function_literal(old(self).tokens(), old(self).state()).0,
            final(self).state() == sp_function_literal(old(self).tokens(), old(self).state()).1,
            measure(old(self).tokens(), final(self).state()) <= measure(
                old(self).tokens(),
                old(self).state(),
            ),
        decreases measure(old(self).tokens(), old(self).state()), 13nat,
    {
        proof {
            reveal(sp_function_literal);
        }
        let ghost ts = self.tokens();
        proof {
            lemma_advance(ts, self.state());
        }
        let token = self.current_token.duplicate();
        if !self.expect_peek(TokenType::Lparen) {
            return None;
        }
        let parameters = self.parse_function_parameters();
        proof {
            lemma_advance(ts, self.state());
        }
        if !self.expect_peek(TokenType::Lbrace) {
            return None;
        }
        let body = self.parse_block_statement();
        Some(ast::Expression::FunctionLiteral(ast::FunctionLiteral { token, parameters, body }))
    }

    #[verifier::spinoff_prover]
    fn parse_function_parameters(&mut self) -> (r: Vec<ast::Identifier>)
        requires
            old(self).wf(),
            old(self).ends_at_eof(),
        ensures
            final(self).wf(),
            final(self).tokens() == old(self).tokens(),
            errors_kept(old(self).state(), final(self).state()),
            ast::idents_view(r@) == sp_function_parameters(old(self).tokens(), old(self).state()).0,
            final(self).state() == sp_function_parameters(old(self).tokens(), old(self).state()).1,
            measure(old(self).tokens(), final(self).state()) <= measure(
                old(self).tokens(),
                old(self).state(),
            ),
    {
        proof {
            reveal(sp_function_parameters);
            reveal(sp_parameters_loop);
        }
        let ghost ts = self.tokens();
        let mut identifiers: Vec<ast::Identifier> = Vec::new();
        proof {
            lemma_advance(ts, self.state());
        }
        if self.peek_token_is(TokenType::Rparen) {
            self.next_token();
            assert(ast::idents_view(identifiers@) =~= Seq::<IdentifierV>::empty());
            return identifiers;
        }
        self.next_token();
        let first = self.current_identifier();
        proof {
            lemma_idents_view_push(identifiers@, first);
        }
        identifiers.push(first);
        assert(ast::idents_view(identifiers@) =~= seq![ident_of(cur(ts, self.state()))]);
        let ghost target = sp_parameters_loop(ts, self.state(), ast::idents_view(identifiers@));
        while self.peek_token_is(TokenType::Comma)
            invariant
                self.wf(),
                errors_kept(old(self).state(), self.state()),
                self.ends_at_eof(),
                self.tokens() == ts,
                ts == old(self).tokens(),
                measure(ts, self.state()) <= measure(ts, old(self).state()),
                sp_parameters_loop(ts, self.state(), ast::idents_view(identifiers@)) == target,
            decreases measure(ts, self.state()),
        {
            proof {
                reveal(sp_parameters_loop);
            }
            proof {
                lemma_advance(ts, self.state());
                lemma_advance(ts, advance(self.state()));
            }
            self.next_token();
            self.next_token();
            let id = self.current_identifier();
            proof {
                lemma_idents_view_push(identifiers@, id);
            }
            identifiers.push(id);
        }
        proof {
            lemma_advance(ts, self.state());
        }
        if !self.expect_peek(TokenType::Rparen) {
            let empty: Vec<ast::Identifier> = Vec::new();
            assert(ast::idents_view(empty@) =~= Seq::<IdentifierV>::empty());
            return empty;
        }
        identifiers
    }

    #[verifier::spinoff_prover]
    fn parse_call_expression(&mut self, function: ast::Expression) -> (r: Option<ast::Expression>)
        requires
            old(self).wf(),
            old(self).ends_at_eof(),
            cur(old(self).tokens(), old(self).state()).toke_type == TokenType::Lparen,
        ensures
            final(self).wf(),
            final(self).tokens() == old(self).tokens(),
            errors_kept(old(self).state(), final(self).state()),
            opt_expr_view(r) == sp_infix(old(self).tokens(), old(self).state(), function@).0,
            final(self).state() == sp_infix(old(self).tokens(), old(self).state(), function@).1,
            measure(old(self).tokens(), final(self).state()) < measure(
                old(self).tokens(),
                old(self).state(),
            ),
        decreases measure(old(self).tokens(), old(self).state()), 13nat,
    {
        proof {
            reveal(sp_infix);
        }
        let token = self.current_token.duplicate();
        let ghost pre = self.state();
        let res = self.parse_call_arguments();
        let arguments = match res {
            Some(a) => a,
            None => {
                assert(sp_call_arguments(self.tokens(), pre).0 is None);
                return None;
            },
        };
        Some(ast::Expression::Call(ast::CallExpression { token, function: Box::new(function), arguments }))
    }

    #[verifier::spinoff_prover]
    fn parse_call_arguments(&mut self) -> (r: Option<Vec<ast::Expression>>)
        requires
            old(self).wf(),
            old(self).ends_at_eof(),
            cur(old(self).tokens(), old(self).state()).toke_type == TokenType::Lparen,
        ensures
            final(self).wf(),
            final(self).tokens() == old(self).tokens(),
            errors_kept(old(self).state(), final(self).state()),
            (match r {
                Some(v) => Some(ast::exprs_view(v@)),
                None => None,
            }) == sp_call_arguments(old(self).tokens(), old(self).state()).0,
            final(self).state() == sp_call_arguments(old(self).tokens(), old(self).state()).1,
            measure(old(self).tokens(), final(self).state()) < measure(
                old(self).tokens(),
                old(self).state(),
            ),
        decreases measure(old(self).tokens(), old(self).state()), 12nat,
    {
        proof {
            reveal(sp_call_arguments);
            reveal(sp_arguments_loop);
        }
        let ghost ts = self.tokens();
        let ghost st0 = self.state();
        let mut arguments: Vec<ast::Expression> = Vec::new();
        proof {
            lemma_advance(ts, self.state());
        }
        if self.peek_token_is(TokenType::Rparen) {
            self.next_token();
            assert(ast::exprs_view(arguments@) =~= Seq::<ExpressionV>::empty());
            return Some(arguments);
        }
        self.next_token();
        let ghost pre = self.state();
        let res = self.parse_expression(Precedence::Lowest);
        let first = match res {
            Some(e) => e,
            None => {
                assert(sp_expression(ts, pre, lowest()).0 is None);
                return None;
            },
        };
        proof {
            lemma_exprs_view_push(arguments@, first);
        }
        arguments.push(first);
        assert(ast::exprs_view(arguments@) =~= seq![first@]);
        let ghost target = sp_arguments_loop(ts, self.state(), ast::exprs_view(arguments@));
        while self.peek_token_is(TokenType::Comma)
            invariant
                self.wf(),
                errors_kept(old(self).state(), self.state()),
                self.ends_at_eof(),
                self.tokens() == ts,
                ts == old(self).tokens(),
                measure(ts, self.state()) < measure(ts, st0),
                st0 == old(self).state(),
                sp_arguments_loop(ts, self.state(), ast::exprs_view(arguments@)) == target,
                sp_call_arguments(ts, st0) == sp_finish_arguments(ts, target),
            decreases measure(ts, self.state()),
        {
            proof {
                reveal(sp_arguments_loop);
            }
            proof {
                lemma_advance(ts, self.state());
                lemma_advance(ts, advance(self.state()));
            }
            let ghost st = self.state();
            let ghost acc = ast::exprs_view(arguments@);
            assert(sp_arguments_loop(ts, st, acc) == target);
            self.next_token();
            self.next_token();
            let ghost pre = self.state();
            let r = self.parse_expression(Precedence::Lowest);
            let e = match r {
                Some(e) => e,
                None => {
                    assert(sp_expression(ts, pre, lowest()).0 is None);
                    return None;
                },
            };
            proof {
                lemma_exprs_view_push(arguments@, e);
            }
            arguments.push(e);
        }
        proof {
            lemma_advance(ts, self.state());
        }
        if !self.expect_peek(TokenType::Rparen) {
            return None;
        }
        Some(arguments)
    }

    #[verifier::spinoff_prover]
    fn parse_block_statement(&mut self) -> (r: ast::BlockStatement)
        requires
            old(self).wf(),
            old(self).ends_at_eof(),
            cur(old(self).tokens(), old(self).state()).toke_type != TokenType::Eof,
        ensures
            final(self).wf(),
            final(self).tokens() == old(self).tokens(),
            errors_kept(old(self).state(), final(self).state()),
            r@ == sp_block_statement(old(self).tokens(), old(self).state()).0,
            final(self).state() == sp_block_statement(old(self).tokens(), old(self).state()).1,
            measure(old(self).tokens(), final(self).state()) < measure(
                old(self).tokens(),
                old(self).state(),
            ),
        decreases measure(old(self).tokens(), old(self).state()), 12nat,
    {
        proof {
            reveal(sp_block_statement);
            reveal(sp_block_loop);
        }
        let ghost ts = self.tokens();
        let ghost st0 = self.state();
        proof {
            lemma_advance(ts, self.state());
        }
        let token = self.current_token.duplicate();
        let mut statements: Vec<ast::Statement> = Vec::new();
        self.next_token();
        assert(ast::stmts_view(statements@) =~= Seq::<StatementV>::empty());
        let ghost target = sp_block_loop(ts, self.state(), Seq::empty());
        while !self.current_token_is(TokenType::Rbrace) && !self.current_token_is(TokenType::Eof)
            invariant
                self.wf(),
                errors_kept(old(self).state(), self.state()),
                self.ends_at_eof(),
                self.tokens() == ts,
                ts == old(self).tokens(),
                measure(ts, self.state()) < measure(ts, st0),
                st0 == old(self).state(),
                sp_block_loop(ts, self.state(), ast::stmts_view(statements@)) == target,
                sp_block_statement(ts, st0) == (BlockStatementV { token: token@, statements: target.0 }, target.1),
            decreases measure(ts, self.state()),
        {
            proof {
                reveal(sp_block_loop);
            }
            proof {
                lemma_advance(ts, self.state());
            }
            let ghost before = statements@;
            if let Some(statement) = self.parse_statement() {
                proof {
                    lemma_stmts_view_push(before, statement);
                }
                statements.push(statement);
            }
            proof {
                lemma_advance(ts, self.state());
            }
            self.next_token();
        }
        ast::BlockStatement { token, statements }
    }

    fn peek_precedence(&self) -> (r: Precedence)
        requires
            self.wf(),
        ensures
            r.spec_level() == prec_of(peek(self.tokens(), self.state()).toke_type),
    {
        precedences(self.peek_token.toke_type)
    }

    fn current_precedence(&self) -> (r: Precedence)
        requires
            self.wf(),
        ensures
            r.spec_level() == prec_of(cur(self.tokens(), self.state()).toke_type),
    {
        precedences(self.current_token.toke_type)
    }
}

/// The decimal text that the library prints for a natural number is read
/// back by the parser as that number: it is all digits, and its value is `n`.
pub proof fn lemma_printed_number_reads_back(n: nat)
    ensures
        all_digits(nat_str(n)),
        digits_val(nat_str(n)) == n,
    decreases n,
{
    let d = (n % 10) as int;
    assert(digit(digit_char(d)));
    assert((digit_char(d) as int) - 48 == d);
    if n >= 10 {
        lemma_printed_number_reads_back(n / 10);
        let s = nat_str(n / 10);
        let t = s.push(digit_char(d));
        assert(t.subrange(0, t.len() - 1) =~= s);
        assert forall|i: int| 0 <= i < t.len() implies digit(#[trigger] t[i]) by {
            if i < s.len() {
                assert(t[i] == s[i]);
            }
        }
        assert(digits_val(t) == digits_val(s) * 10 + d);
        assert((n / 10) * 10 + d == n);
    } else {
        let t = seq![digit_char(d)];
        assert(t.subrange(0, 0) =~= Seq::<char>::empty());
        assert(digits_val(Seq::<char>::empty()) == 0);
        assert(t.last() == digit_char(d));
    }
}

/// A prefix operator takes in a call that follows it: `-f()` and `!f()`
/// parse as the operator applied to the call `f()`, not as a call of `-f`
/// or `!f`.
pub proof fn lemma_prefix_takes_call(ts: Seq<TokenV>, st: ParseState)
    requires
        0 <= st.idx,
        st.idx + 3 < ts.len(),
        ts[st.idx].toke_type == TokenType::Minus || ts[st.idx].toke_type == TokenType::Bang,
        ts[st.idx + 1].toke_type == TokenType::Ident,
        ts[st.idx + 2].toke_type == TokenType::Lparen,
        ts[st.idx + 3].toke_type == TokenType::Rparen,
        tok_at(ts, st.idx + 4).toke_type != TokenType::Lparen,
    ensures
        sp_prefix_expression(ts, st).0 == Some(
            ExpressionV::Prefix {
                token: ts[st.idx],
                operator: ts[st.idx].literal,
                right: Box::new(
                    ExpressionV::Call {
                        token: ts[st.idx + 2],
                        function: Box::new(ExpressionV::Identifier(ident_of(ts[st.idx + 1]))),
                        arguments: Seq::empty(),
                    },
                ),
            },
        ),
{
    reveal(sp_statement);
    reveal(sp_let_statement);
    reveal(sp_return_statement);
    reveal(sp_expression_statement);
    reveal(sp_expression);
    reveal(sp_prefix);
    reveal(sp_prefix_expression);
    reveal(sp_infix);
    reveal(sp_grouped_expression);
    reveal(sp_if_expression);
    reveal(sp_function_literal);
    reveal(sp_function_parameters);
    reveal(sp_parameters_loop);
    reveal(sp_call_arguments);
    reveal(sp_arguments_loop);
    reveal(sp_block_statement);
    reveal(sp_block_loop);
    reveal_with_fuel(sp_expression_loop, 2);
    let st1 = advance(st);
    let st2 = advance(st1);
    let st3 = advance(st2);
    assert(cur(ts, st1) == ts[st.idx + 1]);
    assert(peek(ts, st1) == ts[st.idx + 2]);
    assert(cur(ts, st2) == ts[st.idx + 2]);
    assert(peek(ts, st2) == ts[st.idx + 3]);
    assert(peek(ts, st3) == tok_at(ts, st.idx + 4));
    let call = ExpressionV::Call {
        token: ts[st.idx + 2],
        function: Box::new(ExpressionV::Identifier(ident_of(ts[st.idx + 1]))),
        arguments: Seq::empty(),
    };
    assert(sp_call_arguments(ts, st2) == (Some(Seq::<ExpressionV>::empty()), st3));
    assert(sp_infix(ts, st2, ExpressionV::Identifier(ident_of(ts[st.idx + 1]))) == (Some(call), st3));
    assert(sp_expression_loop(ts, st3, prefix_prec(), call) == (Some(call), st3));
    assert(sp_expression_loop(ts, st1, prefix_prec(), ExpressionV::Identifier(ident_of(ts[st.idx + 1]))).0 == Some(call));
    assert(sp_expression(ts, st1, prefix_prec()).0 == Some(call));
}

/// The operator tokens written between two operands.
pub open spec fn is_binary(t: TokenType) -> bool {
    t == TokenType::Plus || t == TokenType::Minus || t == TokenType::Asterisk || t
        == TokenType::Slash || t == TokenType::Eq || t == TokenType::NotEq || t == TokenType::Lt
        || t == TokenType::Gt
}

/// Operators group by how tightly they bind: in `a op1 b op2 c` the tighter
/// operator takes `b`, and between operators that bind equally the left one
/// does, so `a + b * c` is `a + (b * c)` while `a * b + c` and `a - b - c`
/// are `(a * b) + c` and `(a - b) - c`.
pub proof fn lemma_binary_operators_group(ts: Seq<TokenV>, st: ParseState)
    requires
        0 <= st.idx,
        st.idx + 5 < ts.len(),
        ts[st.idx].toke_type == TokenType::Ident,
        is_binary(ts[st.idx + 1].toke_type),
        ts[st.idx + 2].toke_type == TokenType::Ident,
        is_binary(ts[st.idx + 3].toke_type),
        ts[st.idx + 4].toke_type == TokenType::Ident,
        ts[st.idx + 5].toke_type == TokenType::Semicolon,
    ensures
        ({
            let a = ExpressionV::Identifier(ident_of(ts[st.idx]));
            let b = ExpressionV::Identifier(ident_of(ts[st.idx + 2]));
            let c = ExpressionV::Identifier(ident_of(ts[st.idx + 4]));
            let o1 = ts[st.idx + 1];
            let o2 = ts[st.idx + 3];
            &&& prec_of(o1.toke_type) < prec_of(o2.toke_type) ==> sp_expression(
                ts,
                st,
                lowest(),
            ).0 == Some(
                ExpressionV::Infix {
                    token: o1,
                    left: Box::new(a),
                    operator: o1.literal,
                    right: Box::new(
                        ExpressionV::Infix {
                            token: o2,
                            left: Box::new(b),
                            operator: o2.literal,
                            right: Box::new(c),
                        },
                    ),
                },
            )
            &&& prec_of(o1.toke_type) >= prec_of(o2.toke_type) ==> sp_expression(
                ts,
                st,
                lowest(),
            ).0 == Some(
                ExpressionV::Infix {
                    token: o2,
                    left: Box::new(
                        ExpressionV::Infix {
                            token: o1,
                            left: Box::new(a),
                            operator: o1.literal,
                            right: Box::new(b),
                        },
                    ),
                    operator: o2.literal,
                    right: Box::new(c),
                },
            )
        }),
{
    reveal(sp_statement);
    reveal(sp_let_statement);
    reveal(sp_return_statement);
    reveal(sp_expression_statement);
    reveal(sp_prefix);
    reveal(sp_prefix_expression);
    reveal(sp_infix);
    reveal(sp_grouped_expression);
    reveal(sp_if_expression);
    reveal(sp_function_literal);
    reveal(sp_function_parameters);
    reveal(sp_parameters_loop);
    reveal(sp_call_arguments);
    reveal(sp_arguments_loop);
    reveal(sp_block_statement);
    reveal(sp_block_loop);
    reveal_with_fuel(sp_expression, 3);
    reveal_with_fuel(sp_expression_loop, 3);
    let i = st.idx;
    let s1 = advance(st);
    let s2 = advance(s1);
    let s3 = advance(s2);
    let s4 = advance(s3);
    assert(cur(ts, st) == ts[i]);
    assert(peek(ts, st) == ts[i + 1]);
    assert(cur(ts, s1) == ts[i + 1]);
    assert(cur(ts, s2) == ts[i + 2]);
    assert(peek(ts, s2) == ts[i + 3]);
    assert(cur(ts, s3) == ts[i + 3]);
    assert(cur(ts, s4) == ts[i + 4]);
    assert(peek(ts, s4) == ts[i + 5]);
    let a = ExpressionV::Identifier(ident_of(ts[i]));
    let b = ExpressionV::Identifier(ident_of(ts[i + 2]));
    let c = ExpressionV::Identifier(ident_of(ts[i + 4]));
    let o1 = ts[i + 1];
    let o2 = ts[i + 3];
    let p1 = prec_of(o1.toke_type);
    let p2 = prec_of(o2.toke_type);
    assert(sp_expression_loop(ts, s4, p2, c) == (Some(c), s4));
    assert(sp_expression(ts, s4, p2) == (Some(c), s4));
    if p1 < p2 {
        let bc = ExpressionV::Infix {
            token: o2,
            left: Box::new(b),
            operator: o2.literal,
            right: Box::new(c),
        };
        assert(sp_infix(ts, s3, b) == (Some(bc), s4));
        assert(sp_expression_loop(ts, s4, p1, bc) == (Some(bc), s4));
        assert(sp_expression_loop(ts, s2, p1, b) == (Some(bc), s4));
        assert(sp_expression(ts, s2, p1) == (Some(bc), s4));
        let abc = ExpressionV::Infix {
            token: o1,
            left: Box::new(a),
            operator: o1.literal,
            right: Box::new(bc),
        };
        assert(sp_infix(ts, s1, a) == (Some(abc), s4));
        assert(sp_expression_loop(ts, s4, lowest(), abc) == (Some(abc), s4));
        assert(sp_expression_loop(ts, st, lowest(), a) == (Some(abc), s4));
    } else {
        assert(sp_expression_loop(ts, s2, p1, b) == (Some(b), s2));
        assert(sp_expression(ts, s2, p1) == (Some(b), s2));
        let ab = ExpressionV::Infix {
            token: o1,
            left: Box::new(a),
            operator: o1.literal,
            right: Box::new(b),
        };
        assert(sp_infix(ts, s1, a) == (Some(ab), s2));
        let abc = ExpressionV::Infix {
            token: o2,
            left: Box::new(ab),
            operator: o2.literal,
            right: Box::new(c),
        };
        assert(sp_infix(ts, s3, ab) == (Some(abc), s4));
        assert(sp_expression_loop(ts, s4, lowest(), abc) == (Some(abc), s4));
        assert(sp_expression_loop(ts, s2, lowest(), ab) == (Some(abc), s4));
        assert(sp_expression_loop(ts, st, lowest(), a) == (Some(abc), s4));
    }
}

/// `let x = y;` binds the name after `let` to the expression after `=`, and
/// `return y;` returns the expression after `return`; the parser then stands
/// on the closing `;`.
pub proof fn lemma_let_and_return_statements(ts: Seq<TokenV>, st: ParseState)
    requires
        0 <= st.idx,
        st.idx + 4 < ts.len(),
    ensures
        ts[st.idx].toke_type == TokenType::Let && ts[st.idx + 1].toke_type == TokenType::Ident
            && ts[st.idx + 2].toke_type == TokenType::Assign && ts[st.idx + 3].toke_type
            == TokenType::Ident && ts[st.idx + 4].toke_type == TokenType::Semicolon
            ==> sp_statement(ts, st) == (
            Some(
                StatementV::Let {
                    token: ts[st.idx],
                    name: ident_of(ts[st.idx + 1]),
                    value: ExpressionV::Identifier(ident_of(ts[st.idx + 3])),
                },
            ),
            ParseState { idx: st.idx + 4, errors: st.errors },
        ),
        ts[st.idx].toke_type == TokenType::Return && ts[st.idx + 1].toke_type
            == TokenType::Ident && ts[st.idx + 2].toke_type == TokenType::Semicolon
            ==> sp_statement(ts, st) == (
            Some(
                StatementV::Return {
                    token: ts[st.idx],
                    return_value: Some(ExpressionV::Identifier(ident_of(ts[st.idx + 1]))),
                },
            ),
            ParseState { idx: st.idx + 2, errors: st.errors },
        ),
{
    reveal(sp_statement);
    reveal(sp_let_statement);
    reveal(sp_return_statement);
    reveal(sp_expression_statement);
    reveal(sp_expression);
    reveal(sp_prefix);
    reveal(sp_prefix_expression);
    reveal(sp_infix);
    reveal(sp_grouped_expression);
    reveal(sp_if_expression);
    reveal(sp_function_literal);
    reveal(sp_function_parameters);
    reveal(sp_parameters_loop);
    reveal(sp_call_arguments);
    reveal(sp_arguments_loop);
    reveal(sp_block_statement);
    reveal(sp_block_loop);
    reveal(sp_expression_loop);
    let i = st.idx;
    let s1 = advance(st);
    let s2 = advance(s1);
    let s3 = advance(s2);
    assert(cur(ts, st) == ts[i]);
    assert(peek(ts, st) == ts[i + 1]);
    assert(cur(ts, s1) == ts[i + 1]);
    assert(peek(ts, s1) == ts[i + 2]);
    assert(cur(ts, s2) == ts[i + 2]);
    assert(peek(ts, s2) == ts[i + 3]);
    assert(cur(ts, s3) == ts[i + 3]);
    assert(peek(ts, s3) == ts[i + 4]);
    if ts[i].toke_type == TokenType::Return && ts[i + 1].toke_type == TokenType::Ident
        && ts[i + 2].toke_type == TokenType::Semicolon {
        let y = ExpressionV::Identifier(ident_of(ts[i + 1]));
        assert(sp_expression_loop(ts, s1, lowest(), y) == (Some(y), s1));
        assert(sp_expression(ts, s1, lowest()) == (Some(y), s1));
        assert(advance(s1) =~= ParseState { idx: i + 2, errors: st.errors });
    }
    if ts[i].toke_type == TokenType::Let && ts[i + 1].toke_type == TokenType::Ident
        && ts[i + 2].toke_type == TokenType::Assign && ts[i + 3].toke_type == TokenType::Ident
        && ts[i + 4].toke_type == TokenType::Semicolon {
        let y = ExpressionV::Identifier(ident_of(ts[i + 3]));
        assert(sp_expression_loop(ts, s3, lowest(), y) == (Some(y), s3));
        assert(sp_expression(ts, s3, lowest()) == (Some(y), s3));
        assert(advance(s3) =~= ParseState { idx: i + 4, errors: st.errors });
    }
}

/// A prefix operator binds more tightly than every operator between two
/// operands: `-a * b` and `!a == b` apply the prefix operator to `a` alone.
pub proof fn lemma_prefix_binds_tighter(ts: Seq<TokenV>, st: ParseState)
    requires
        0 <= st.idx,
        st.idx + 4 < ts.len(),
        ts[st.idx].toke_type == TokenType::Minus || ts[st.idx].toke_type == TokenType::Bang,
        ts[st.idx + 1].toke_type == TokenType::Ident,
        is_binary(ts[st.idx + 2].toke_type),
        ts[st.idx + 3].toke_type == TokenType::Ident,
        ts[st.idx + 4].toke_type == TokenType::Semicolon,
    ensures
        sp_expression(ts, st, lowest()).0 == Some(
            ExpressionV::Infix {
                token: ts[st.idx + 2],
                left: Box::new(
                    ExpressionV::Prefix {
                        token: ts[st.idx],
                        operator: ts[st.idx].literal,
                        right: Box::new(ExpressionV::Identifier(ident_of(ts[st.idx + 1]))),
                    },
                ),
                operator: ts[st.idx + 2].literal,
                right: Box::new(ExpressionV::Identifier(ident_of(ts[st.idx + 3]))),
            },
        ),
{
    reveal(sp_statement);
    reveal(sp_let_statement);
    reveal(sp_return_statement);
    reveal(sp_expression_statement);
    reveal(sp_prefix);
    reveal(sp_prefix_expression);
    reveal(sp_infix);
    reveal(sp_grouped_expression);
    reveal(sp_if_expression);
    reveal(sp_function_literal);
    reveal(sp_function_parameters);
    reveal(sp_parameters_loop);
    reveal(sp_call_arguments);
    reveal(sp_arguments_loop);
    reveal(sp_block_statement);
    reveal(sp_block_loop);
    reveal_with_fuel(sp_expression, 3);
    reveal_with_fuel(sp_expression_loop, 3);
    let i = st.idx;
    let s1 = advance(st);
    let s2 = advance(s1);
    let s3 = advance(s2);
    assert(cur(ts, st) == ts[i]);
    assert(cur(ts, s1) == ts[i + 1]);
    assert(peek(ts, s1) == ts[i + 2]);
    assert(cur(ts, s2) == ts[i + 2]);
    assert(cur(ts, s3) == ts[i + 3]);
    assert(peek(ts, s3) == ts[i + 4]);
    let a = ExpressionV::Identifier(ident_of(ts[i + 1]));
    let b = ExpressionV::Identifier(ident_of(ts[i + 3]));
    let pa = ExpressionV::Prefix {
        token: ts[i],
        operator: ts[i].literal,
        right: Box::new(a),
    };
    let o = ts[i + 2];
    assert(sp_expression_loop(ts, s1, prefix_prec(), a) == (Some(a), s1));
    assert(sp_expression(ts, s1, prefix_prec()) == (Some(a), s1));
    assert(sp_prefix_expression(ts, st) == (Some(pa), s1));
    assert(sp_expression_loop(ts, s3, prec_of(o.toke_type), b) == (Some(b), s3));
    assert(sp_expression(ts, s3, prec_of(o.toke_type)) == (Some(b), s3));
    let e = ExpressionV::Infix {
        token: o,
        left: Box::new(pa),
        operator: o.literal,
        right: Box::new(b),
    };
    assert(sp_infix(ts, s2, pa) == (Some(e), s3));
    assert(sp_expression_loop(ts, s3, lowest(), e) == (Some(e), s3));
    assert(sp_expression_loop(ts, s1, lowest(), pa) == (Some(e), s3));
}

} // verus!
