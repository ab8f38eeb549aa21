//! The syntax tree in the form that the plain evaluator runs: the same
//! shape and text as `crate::ast`, without string literals.
use vstd::prelude::*;
use vstd::string::*;

use crate::ast::{
    block_str, concat, expr_str, exprs_text, idents_text, join, lemma_concat_step,
    lemma_exprs_text, lemma_join_step, lemma_stmts_text, node_str, program_str, stmt_str,
    stmts_text, BlockStatementV, ExpressionV, IdentifierV, NodeV, ProgramV, StatementV,
};
use crate::token::Token;
use crate::utils::push_int;

verus! {

broadcast use {vstd::seq::axiom_seq_subrange_decreases, vstd::seq::axiom_seq_index_decreases};

#[derive(Debug)]
pub enum Node {
    Program(Program),
    Statement(Statement),
    Expression(Expression),
}

#[derive(Debug)]
pub enum Statement {
    Let(LetStatement),
    Return(ReturnStatement),
    Expression(ExpressionStatement),
    Block(BlockStatement),
}

#[derive(Debug)]
pub enum Expression {
    Identifier(Identifier),
    IntegerLiteral(IntegerLiteral),
    Prefix(PrefixExpression),
    Infix(InfixExpression),
    Boolean(Boolean),
    If(IfExpression),
    FunctionLiteral(FunctionLiteral),
    Call(CallExpression),
}

// --- Root Node ---
#[derive(Debug)]
pub struct Program {
    pub statements: Vec<Statement>,
}

// --- Concrete Structs ---
#[derive(Debug)]
pub struct LetStatement {
    pub token: Token,  // the 'let' token
    pub name: Identifier,
    pub value: Box<Expression>,
}

#[derive(Debug)]
pub struct ReturnStatement {
    pub token: Token,  // the 'return' token
    pub return_value: Option<Box<Expression>>,
}

#[derive(Debug)]
pub struct ExpressionStatement {
    pub token: Token,  // the first token of the expression
    pub expression: Box<Expression>,
}

#[derive(Debug)]
pub struct BlockStatement {
    pub token: Token,  // the '{' token
    pub statements: Vec<Statement>,
}

#[derive(Debug)]
pub struct Identifier {
    pub token: Token,
    pub value: String,
}

#[derive(Debug)]
pub struct IntegerLiteral {
    pub token: Token,
    pub value: i64,
}

#[derive(Debug)]
pub struct PrefixExpression {
    pub token: Token,  // e.g., '!', '-'
    pub operator: String,
    pub right: Box<Expression>,
}

#[derive(Debug)]
pub struct InfixExpression {
    pub token: Token,  // e.g., '+'
    pub left: Box<Expression>,
    pub operator: String,
    pub right: Box<Expression>,
}

#[derive(Debug)]
pub struct Boolean {
    pub token: Token,
    pub value: bool,
}

#[derive(Debug)]
pub struct IfExpression {
    pub token: Token,  // The 'if' token
    pub condition: Box<Expression>,
    pub consequence: BlockStatement,
    pub alternative: Option<BlockStatement>,
}

#[derive(Debug)]
pub struct FunctionLiteral {
    pub token: Token,  // The 'fn' token
    pub parameters: Vec<Identifier>,
    pub body: BlockStatement,
}

#[derive(Debug)]
pub struct CallExpression {
    pub token: Token,  // The '(' token
    pub function: Box<Expression>,  // Identifier or FunctionLiteral
    pub arguments: Vec<Expression>,
}

pub open spec fn idents_view(s: Seq<Identifier>) -> Seq<IdentifierV>
    decreases s.len(),
{
    if s.len() == 0 {
        Seq::empty()
    } else {
        idents_view(s.subrange(0, s.len() - 1)).push(s.last()@)
    }
}

pub open spec fn stmts_view(s: Seq<Statement>) -> Seq<StatementV>
    decreases s,
{
    if s.len() == 0 {
        Seq::empty()
    } else {
        stmts_view(s.subrange(0, s.len() - 1)).push(stmt_view(s[s.len() - 1]))
    }
}

pub open spec fn exprs_view(s: Seq<Expression>) -> Seq<ExpressionV>
    decreases s,
{
    if s.len() == 0 {
        Seq::empty()
    } else {
        exprs_view(s.subrange(0, s.len() - 1)).push(expr_view(s[s.len() - 1]))
    }
}

pub open spec fn block_view(b: BlockStatement) -> BlockStatementV
    decreases b,
{
    BlockStatementV { token: b.token@, statements: stmts_view(b.statements@) }
}

pub open spec fn stmt_view(s: Statement) -> StatementV
    decreases s,
{
    match s {
        Statement::Let(l) => StatementV::Let {
            token: l.token@,
            name: l.name@,
            value: expr_view(*l.value),
        },
        Statement::Return(r) => StatementV::Return {
            token: r.token@,
            return_value: match r.return_value {
                Some(e) => Some(expr_view(*e)),
                None => None,
            },
        },
        Statement::Expression(e) => StatementV::Expression {
            token: e.token@,
            expression: expr_view(*e.expression),
        },
        Statement::Block(b) => StatementV::Block(block_view(b)),
    }
}

pub open spec fn expr_view(e: Expression) -> ExpressionV
    decreases e,
{
    match e {
        Expression::Identifier(i) => ExpressionV::Identifier(i@),
        Expression::IntegerLiteral(i) => ExpressionV::IntegerLiteral {
            token: i.token@,
            value: i.value,
        },
        Expression::Prefix(p) => ExpressionV::Prefix {
            token: p.token@,
            operator: p.operator@,
            right: Box::new(expr_view(*p.right)),
        },
        Expression::Infix(i) => ExpressionV::Infix {
            token: i.token@,
            left: Box::new(expr_view(*i.left)),
            operator: i.operator@,
            right: Box::new(expr_view(*i.right)),
        },
        Expression::Boolean(b) => ExpressionV::Boolean { token: b.token@, value: b.value },
        Expression::If(i) => ExpressionV::If {
            token: i.token@,
            condition: Box::new(expr_view(*i.condition)),
            consequence: block_view(i.consequence),
            alternative: match i.alternative {
                Some(b) => Some(block_view(b)),
                None => None,
            },
        },
        Expression::FunctionLiteral(f) => ExpressionV::FunctionLiteral {
            token: f.token@,
            parameters: idents_view(f.parameters@),
            body: block_view(f.body),
        },
        Expression::Call(c) => ExpressionV::Call {
            token: c.token@,
            function: Box::new(expr_view(*c.function)),
            arguments: exprs_view(c.arguments@),
        },
    }
}

impl View for Identifier {
    type V = IdentifierV;

    open spec fn view(&self) -> IdentifierV {
        IdentifierV { token: self.token@, value: self.value@ }
    }
}

impl View for BlockStatement {
    type V = BlockStatementV;

    open spec fn view(&self) -> BlockStatementV {
        block_view(*self)
    }
}

impl View for Statement {
    type V = StatementV;

    open spec fn view(&self) -> StatementV {
        stmt_view(*self)
    }
}

impl View for Expression {
    type V = ExpressionV;

    open spec fn view(&self) -> ExpressionV {
        expr_view(*self)
    }
}

impl View for Program {
    type V = ProgramV;

    open spec fn view(&self) -> ProgramV {
        ProgramV { statements: stmts_view(self.statements@) }
    }
}

impl View for Node {
    type V = NodeV;

    open spec fn view(&self) -> NodeV {
        match self {
            Node::Program(p) => NodeV::Program(p@),
            Node::Statement(s) => NodeV::Statement(s@),
            Node::Expression(e) => NodeV::Expression(e@),
        }
    }
}

pub proof fn lemma_idents_view(s: Seq<Identifier>)
    ensures
        idents_view(s).len() == s.len(),
        forall|i: int| 0 <= i < s.len() ==> #[trigger] idents_view(s)[i] == s[i]@,
    decreases s.len(),
{
    if s.len() > 0 {
        lemma_idents_view(s.subrange(0, s.len() - 1));
    }
}

pub proof fn lemma_stmts_view(s: Seq<Statement>)
    ensures
        stmts_view(s).len() == s.len(),
        forall|i: int| 0 <= i < s.len() ==> #[trigger] stmts_view(s)[i] == s[i]@,
    decreases s.len(),
{
    if s.len() > 0 {
        lemma_stmts_view(s.subrange(0, s.len() - 1));
    }
}

pub proof fn lemma_exprs_view(s: Seq<Expression>)
    ensures
        exprs_view(s).len() == s.len(),
        forall|i: int| 0 <= i < s.len() ==> #[trigger] exprs_view(s)[i] == s[i]@,
    decreases s.len(),
{
    if s.len() > 0 {
        lemma_exprs_view(s.subrange(0, s.len() - 1));
    }
}

/// Appends the texts of `stmts`, one after the other.
fn push_statements(out: &mut String, stmts: &Vec<Statement>)
    ensures
        final(out)@ == old(out)@ + concat(stmts_text(stmts_view(stmts@))),
    decreases stmts,
{
    proof {
        lemma_stmts_view(stmts@);
        lemma_stmts_text(stmts_view(stmts@));
    }
    let ghost parts = stmts_text(stmts_view(stmts@));
    let n = stmts.len();
    let mut i: usize = 0;
    while i < n
        invariant
            n == stmts@.len(),
            i <= n,
            parts == stmts_text(stmts_view(stmts@)),
            parts.len() == n,
            forall|j: int| 0 <= j < n ==> #[trigger] parts[j] == stmt_str(stmts@[j]@),
            out@ == old(out)@ + concat(parts.subrange(0, i as int)),
        decreases n - i,
    {
        proof {
            lemma_concat_step(parts, i as int);
            assert(decreases_to!(stmts => stmts@[i as int]));
        }
        let s = stmts[i].string();
        out.append(s.as_str());
        i = i + 1;
    }
    assert(parts.subrange(0, n as int) =~= parts);
}

impl Program {
    pub fn string(&self) -> (r: String)
        ensures
            r@ == program_str(self@),
    {
        let mut out = String::new();
        push_statements(&mut out, &self.statements);
        assert(out@ =~= program_str(self@));
        out
    }
}

impl Node {
    pub fn string(&self) -> (r: String)
        ensures
            r@ == node_str(self@),
    {
        match self {
            Node::Program(p) => p.string(),
            Node::Statement(s) => s.string(),
            Node::Expression(e) => e.string(),
        }
    }
}

impl Statement {
    pub fn string(&self) -> (r: String)
        ensures
            r@ == stmt_str(self@),
        decreases self,
    {
        match self {
            Statement::Let(s) => s.string(),
            Statement::Return(s) => s.string(),
            Statement::Expression(s) => s.expression.string(),
            Statement::Block(s) => s.string(),
        }
    }
}

impl LetStatement {
    pub fn string(&self) -> (r: String)
        ensures
            r@ == stmt_str(Statement::Let(*self)@),
        decreases self,
    {
        let mut out = self.token.literal.clone();
        out.append(" ");
        out.append(self.name.value.as_str());
        out.append(" = ");
        let v = self.value.string();
        out.append(v.as_str());
        out.append(";");
        assert(out@ =~= stmt_str(Statement::Let(*self)@));
        out
    }
}

impl ReturnStatement {
    pub fn string(&self) -> (r: String)
        ensures
            r@ == stmt_str(Statement::Return(*self)@),
        decreases self,
    {
        let mut out = self.token.literal.clone();
        out.append(" ");
        match &self.return_value {
            Some(v) => {
                let s = v.string();
                out.append(s.as_str());
            },
            None => {},
        }
        out.append(";");
        assert(out@ =~= stmt_str(Statement::Return(*self)@));
        out
    }
}

impl ExpressionStatement {
    pub fn string(&self) -> (r: String)
        ensures
            r@ == stmt_str(Statement::Expression(*self)@),
    {
        self.expression.string()
    }
}

impl BlockStatement {
    pub fn string(&self) -> (r: String)
        ensures
            r@ == block_str(self@),
        decreases self,
    {
        let mut out = String::new();
        push_statements(&mut out, &self.statements);
        assert(out@ =~= block_str(self@));
        out
    }
}

impl Identifier {
    pub fn string(&self) -> (r: String)
        ensures
            r@ == self.value@,
    {
        self.value.clone()
    }
}

/// Appends the texts of `params`, separated by `", "`.
fn push_identifiers(out: &mut String, params: &Vec<Identifier>)
    ensures
        final(out)@ == old(out)@ + join(idents_text(idents_view(params@))),
{
    proof {
        lemma_idents_view(params@);
    }
    let ghost parts = idents_text(idents_view(params@));
    let n = params.len();
    let mut i: usize = 0;
    while i < n
        invariant
            n == params@.len(),
            i <= n,
            parts == idents_text(idents_view(params@)),
            parts.len() == n,
            forall|j: int| 0 <= j < n ==> #[trigger] parts[j] == params@[j].value@,
            out@ == old(out)@ + join(parts.subrange(0, i as int)),
        decreases n - i,
    {
        proof {
            lemma_join_step(parts, i as int);
        }
        if i > 0 {
            out.append(", ");
        }
        out.append(params[i].value.as_str());
        i = i + 1;
    }
    assert(parts.subrange(0, n as int) =~= parts);
}

/// Appends the texts of `args`, separated by `", "`.
fn push_expressions(out: &mut String, args: &Vec<Expression>)
    ensures
        final(out)@ == old(out)@ + join(exprs_text(exprs_view(args@))),
    decreases args,
{
    proof {
        lemma_exprs_view(args@);
        lemma_exprs_text(exprs_view(args@));
    }
    let ghost parts = exprs_text(exprs_view(args@));
    let n = args.len();
    let mut i: usize = 0;
    while i < n
        invariant
            n == args@.len(),
            i <= n,
            parts == exprs_text(exprs_view(args@)),
            parts.len() == n,
            forall|j: int| 0 <= j < n ==> #[trigger] parts[j] == expr_str(args@[j]@),
            out@ == old(out)@ + join(parts.subrange(0, i as int)),
        decreases n - i,
    {
        proof {
            lemma_join_step(parts, i as int);
            assert(decreases_to!(args => args@[i as int]));
        }
        if i > 0 {
            out.append(", ");
        }
        let s = args[i].string();
        out.append(s.as_str());
        i = i + 1;
    }
    assert(parts.subrange(0, n as int) =~= parts);
}

impl Expression {
    pub fn string(&self) -> (r: String)
        ensures
            r@ == expr_str(self@),
        decreases self,
    {
        let mut out = String::new();
        match self {
            Expression::Identifier(i) => {
                out.append(i.value.as_str());
            },
            Expression::IntegerLiteral(i) => {
                push_int(&mut out, i.value);
            },
            Expression::Prefix(p) => {
                out.append("(");
                out.append(p.operator.as_str());
                let s = p.right.string();
                out.append(s.as_str());
                out.append(")");
            },
            Expression::Infix(i) => {
                out.append("(");
                let l = i.left.string();
                out.append(l.as_str());
                out.append(" ");
                out.append(i.operator.as_str());
                out.append(" ");
                let r = i.right.string();
                out.append(r.as_str());
                out.append(")");
            },
            Expression::Boolean(b) => {
                out.append(b.token.literal.as_str());
            },
            Expression::If(i) => {
                out.append("if ");
                let c = i.condition.string();
                out.append(c.as_str());
                out.append(" ");
                let b = i.consequence.string();
                out.append(b.as_str());
                match &i.alternative {
                    Some(alt) => {
                        out.append(" else ");
                        let a = alt.string();
                        out.append(a.as_str());
                    },
                    None => {},
                }
            },
            Expression::FunctionLiteral(f) => {
                out.append(f.token.literal.as_str());
                out.append("(");
                push_identifiers(&mut out, &f.parameters);
                out.append(") ");
                let b = f.body.string();
                out.append(b.as_str());
            },
            Expression::Call(c) => {
                let f = c.function.string();
                out.append(f.as_str());
                out.append("(");
                push_expressions(&mut out, &c.arguments);
                out.append(")");
            },

        }
        assert(out@ =~= expr_str(self@));
        out
    }
}

} // verus!
