//! The syntax tree the parser builds and the evaluator runs.
use vstd::prelude::*;
use vstd::string::*;

use crate::token::{Token, TokenV};
use crate::utils::{int_str, push_int};

verus! {

broadcast use {vstd::seq::axiom_seq_subrange_decreases, vstd::seq::axiom_seq_index_decreases};

#[derive(Debug)]
pub enum Node {
    Program(Program),
    Statement(Statement),
    Expression(Expression),
}

#[derive(Debug)]
pub enum Statement {
    Let(LetStatement),
    Return(ReturnStatement),
    Expression(ExpressionStatement),
    Block(BlockStatement),
}

#[derive(Debug)]
pub enum Expression {
    Identifier(Identifier),
    IntegerLiteral(IntegerLiteral),
    Prefix(PrefixExpression),
    Infix(InfixExpression),
    Boolean(Boolean),
    If(IfExpression),
    FunctionLiteral(FunctionLiteral),
    Call(CallExpression),
    StringLiteral(StringLiteral),
}

// --- Root Node ---
#[derive(Debug)]
pub struct Program {
    pub statements: Vec<Statement>,
}

// --- Concrete Structs ---
#[derive(Debug)]
pub struct LetStatement {
    pub token: Token,  // the 'let' token
    pub name: Identifier,
    pub value: Expression,
}

#[derive(Debug)]
pub struct ReturnStatement {
    pub token: Token,  // the 'return' token
    pub return_value: Option<Box<Expression>>,
}

#[derive(Debug)]
pub struct ExpressionStatement {
    pub token: Token,  // the first token of the expression
    pub expression: Box<Expression>,
}

#[derive(Debug)]
pub struct BlockStatement {
    pub token: Token,  // the '{' token
    pub statements: Vec<Statement>,
}

#[derive(Debug)]
pub struct Identifier {
    pub token: Token,
    pub value: String,
}

#[derive(Debug)]
pub struct IntegerLiteral {
    pub token: Token,
    pub value: i64,
}

#[derive(Debug)]
pub struct PrefixExpression {
    pub token: Token,  // e.g., '!', '-'
    pub operator: String,
    pub right: Box<Expression>,
}

#[derive(Debug)]
pub struct InfixExpression {
    pub token: Token,  // e.g., '+'
    pub left: Box<Expression>,
    pub operator: String,
    pub right: Box<Expression>,
}

#[derive(Debug)]
pub struct Boolean {
    pub token: Token,
    pub value: bool,
}

#[derive(Debug)]
pub struct IfExpression {
    pub token: Token,  // The 'if' token
    pub condition: Box<Expression>,
    pub consequence: BlockStatement,
    pub alternative: Option<BlockStatement>,
}

#[derive(Debug)]
pub struct FunctionLiteral {
    pub token: Token,  // The 'fn' token
    pub parameters: Vec<Identifier>,
    pub body: BlockStatement,
}

#[derive(Debug)]
pub struct CallExpression {
    pub token: Token,  // The '(' token
    pub function: Box<Expression>,  // Identifier or FunctionLiteral
    pub arguments: Vec<Expression>,
}

#[derive(Debug)]
pub struct StringLiteral {
    pub token: Token,
    pub value: String,
}

// --- Mathematical values of the tree ---
#[verifier::ext_equal]
pub struct IdentifierV {
    pub token: TokenV,
    pub value: Seq<char>,
}

#[verifier::ext_equal]
pub struct BlockStatementV {
    pub token: TokenV,
    pub statements: Seq<StatementV>,
}

#[verifier::ext_equal]
pub enum StatementV {
    Let { token: TokenV, name: IdentifierV, value: ExpressionV },
    Return { token: TokenV, return_value: Option<ExpressionV> },
    Expression { token: TokenV, expression: ExpressionV },
    Block(BlockStatementV),
}

#[verifier::ext_equal]
pub enum ExpressionV {
    Identifier(IdentifierV),
    IntegerLiteral { token: TokenV, value: i64 },
    Prefix { token: TokenV, operator: Seq<char>, right: Box<ExpressionV> },
    Infix { token: TokenV, left: Box<ExpressionV>, operator: Seq<char>, right: Box<ExpressionV> },
    Boolean { token: TokenV, value: bool },
    If {
        token: TokenV,
        condition: Box<ExpressionV>,
        consequence: BlockStatementV,
        alternative: Option<BlockStatementV>,
    },
    FunctionLiteral { token: TokenV, parameters: Seq<IdentifierV>, body: BlockStatementV },
    Call { token: TokenV, function: Box<ExpressionV>, arguments: Seq<ExpressionV> },
    StringLiteral { token: TokenV, value: Seq<char> },
}

#[verifier::ext_equal]
pub struct ProgramV {
    pub statements: Seq<StatementV>,
}

pub enum NodeV {
    Program(ProgramV),
    Statement(StatementV),
    Expression(ExpressionV),
}

pub open spec fn idents_view(s: Seq<Identifier>) -> Seq<IdentifierV>
    decreases s.len(),
{
    if s.len() == 0 {
        Seq::empty()
    } else {
        idents_view(s.subrange(0, s.len() - 1)).push(s.last()@)
    }
}

pub open spec fn stmts_view(s: Seq<Statement>) -> Seq<StatementV>
    decreases s,
{
    if s.len() == 0 {
        Seq::empty()
    } else {
        stmts_view(s.subrange(0, s.len() - 1)).push(stmt_view(s[s.len() - 1]))
    }
}

pub open spec fn exprs_view(s: Seq<Expression>) -> Seq<ExpressionV>
    decreases s,
{
    if s.len() == 0 {
        Seq::empty()
    } else {
        exprs_view(s.subrange(0, s.len() - 1)).push(expr_view(s[s.len() - 1]))
    }
}

pub open spec fn block_view(b: BlockStatement) -> BlockStatementV
    decreases b,
{
    BlockStatementV { token: b.token@, statements: stmts_view(b.statements@) }
}

pub open spec fn stmt_view(s: Statement) -> StatementV
    decreases s,
{
    match s {
        Statement::Let(l) => StatementV::Let {
            token: l.token@,
            name: l.name@,
            value: expr_view(l.value),
        },
        Statement::Return(r) => StatementV::Return {
            token: r.token@,
            return_value: match r.return_value {
                Some(e) => Some(expr_view(*e)),
                None => None,
            },
        },
        Statement::Expression(e) => StatementV::Expression {
            token: e.token@,
            expression: expr_view(*e.expression),
        },
        Statement::Block(b) => StatementV::Block(block_view(b)),
    }
}

pub open spec fn expr_view(e: Expression) -> ExpressionV
    decreases e,
{
    match e {
        Expression::Identifier(i) => ExpressionV::Identifier(i@),
        Expression::IntegerLiteral(i) => ExpressionV::IntegerLiteral {
            token: i.token@,
            value: i.value,
        },
        Expression::Prefix(p) => ExpressionV::Prefix {
            token: p.token@,
            operator: p.operator@,
            right: Box::new(expr_view(*p.right)),
        },
        Expression::Infix(i) => ExpressionV::Infix {
            token: i.token@,
            left: Box::new(expr_view(*i.left)),
            operator: i.operator@,
            right: Box::new(expr_view(*i.right)),
        },
        Expression::Boolean(b) => ExpressionV::Boolean { token: b.token@, value: b.value },
        Expression::If(i) => ExpressionV::If {
            token: i.token@,
            condition: Box::new(expr_view(*i.condition)),
            consequence: block_view(i.consequence),
            alternative: match i.alternative {
                Some(b) => Some(block_view(b)),
                None => None,
            },
        },
        Expression::FunctionLiteral(f) => ExpressionV::FunctionLiteral {
            token: f.token@,
            parameters: idents_view(f.parameters@),
            body: block_view(f.body),
        },
        Expression::Call(c) => ExpressionV::Call {
            token: c.token@,
            function: Box::new(expr_view(*c.function)),
            arguments: exprs_view(c.arguments@),
        },
        Expression::StringLiteral(s) => ExpressionV::StringLiteral {
            token: s.token@,
            value: s.value@,
        },
    }
}

impl View for Identifier {
    type V = IdentifierV;

    open spec fn view(&self) -> IdentifierV {
        IdentifierV { token: self.token@, value: self.value@ }
    }
}

impl View for BlockStatement {
    type V = BlockStatementV;

    open spec fn view(&self) -> BlockStatementV {
        block_view(*self)
    }
}

impl View for Statement {
    type V = StatementV;

    open spec fn view(&self) -> StatementV {
        stmt_view(*self)
    }
}

impl View for Expression {
    type V = ExpressionV;

    open spec fn view(&self) -> ExpressionV {
        expr_view(*self)
    }
}

impl View for Program {
    type V = ProgramV;

    open spec fn view(&self) -> ProgramV {
        ProgramV { statements: stmts_view(self.statements@) }
    }
}

impl View for Node {
    type V = NodeV;

    open spec fn view(&self) -> NodeV {
        match self {
            Node::Program(p) => NodeV::Program(p@),
            Node::Statement(s) => NodeV::Statement(s@),
            Node::Expression(e) => NodeV::Expression(e@),
        }
    }
}

pub proof fn lemma_idents_view(s: Seq<Identifier>)
    ensures
        idents_view(s).len() == s.len(),
        forall|i: int| 0 <= i < s.len() ==> #[trigger] idents_view(s)[i] == s[i]@,
    decreases s.len(),
{
    if s.len() > 0 {
        lemma_idents_view(s.subrange(0, s.len() - 1));
    }
}

pub proof fn lemma_stmts_view(s: Seq<Statement>)
    ensures
        stmts_view(s).len() == s.len(),
        forall|i: int| 0 <= i < s.len() ==> #[trigger] stmts_view(s)[i] == s[i]@,
    decreases s.len(),
{
    if s.len() > 0 {
        lemma_stmts_view(s.subrange(0, s.len() - 1));
    }
}

pub proof fn lemma_exprs_view(s: Seq<Expression>)
    ensures
        exprs_view(s).len() == s.len(),
        forall|i: int| 0 <= i < s.len() ==> #[trigger] exprs_view(s)[i] == s[i]@,
    decreases s.len(),
{
    if s.len() > 0 {
        lemma_exprs_view(s.subrange(0, s.len() - 1));
    }
}

// --- Text of the tree ---
/// Joins texts with `", "` between them.
pub open spec fn join(parts: Seq<Seq<char>>) -> Seq<char>
    decreases parts.len(),
{
    if parts.len() == 0 {
        Seq::empty()
    } else if parts.len() == 1 {
        parts[0]
    } else {
        join(parts.subrange(0, parts.len() - 1)) + ", "@ + parts.last()
    }
}

/// Concatenates texts.
pub open spec fn concat(parts: Seq<Seq<char>>) -> Seq<char>
    decreases parts.len(),
{
    if parts.len() == 0 {
        Seq::empty()
    } else {
        concat(parts.subrange(0, parts.len() - 1)) + parts.last()
    }
}

pub open spec fn stmts_text(s: Seq<StatementV>) -> Seq<Seq<char>>
    decreases s,
{
    if s.len() == 0 {
        Seq::empty()
    } else {
        stmts_text(s.subrange(0, s.len() - 1)).push(stmt_str(s[s.len() - 1]))
    }
}

pub open spec fn exprs_text(s: Seq<ExpressionV>) -> Seq<Seq<char>>
    decreases s,
{
    if s.len() == 0 {
        Seq::empty()
    } else {
        exprs_text(s.subrange(0, s.len() - 1)).push(expr_str(s[s.len() - 1]))
    }
}

pub open spec fn idents_text(s: Seq<IdentifierV>) -> Seq<Seq<char>> {
    Seq::new(s.len(), |i: int| s[i].value)
}

pub open spec fn block_str(b: BlockStatementV) -> Seq<char>
    decreases b,
{
    concat(stmts_text(b.statements))
}

/// The text of a statement.
pub open spec fn stmt_str(s: StatementV) -> Seq<char>
    decreases s,
{
    match s {
        StatementV::Let { token, name, value } => token.literal + " "@ + name.value + " = "@
            + expr_str(value) + ";"@,
        StatementV::Return { token, return_value } => token.literal + " "@ + match return_value {
            Some(e) => expr_str(e),
            None => Seq::empty(),
        } + ";"@,
        StatementV::Expression { token, expression } => expr_str(expression),
        StatementV::Block(b) => block_str(b),
    }
}

/// The text of an expression: operators are fully parenthesized.
pub open spec fn expr_str(e: ExpressionV) -> Seq<char>
    decreases e,
{
    match e {
        ExpressionV::Identifier(i) => i.value,
        ExpressionV::IntegerLiteral { token, value } => int_str(value as int),
        ExpressionV::Prefix { token, operator, right } => "("@ + operator + expr_str(*right)
            + ")"@,
        ExpressionV::Infix { token, left, operator, right } => "("@ + expr_str(*left) + " "@
            + operator + " "@ + expr_str(*right) + ")"@,
        ExpressionV::Boolean { token, value } => token.literal,
        ExpressionV::If { token, condition, consequence, alternative } => "if "@ + expr_str(
            *condition,
        ) + " "@ + block_str(consequence) + match alternative {
            Some(b) => " else "@ + block_str(b),
            None => Seq::empty(),
        },
        ExpressionV::FunctionLiteral { token, parameters, body } => token.literal + "("@ + join(
            idents_text(parameters),
        ) + ") "@ + block_str(body),
        ExpressionV::Call { token, function, arguments } => expr_str(*function) + "("@ + join(
            exprs_text(arguments),
        ) + ")"@,
        ExpressionV::StringLiteral { token, value } => "\""@ + value + "\""@,
    }
}

pub open spec fn program_str(p: ProgramV) -> Seq<char> {
    concat(stmts_text(p.statements))
}

pub open spec fn node_str(n: NodeV) -> Seq<char> {
    match n {
        NodeV::Program(p) => program_str(p),
        NodeV::Statement(s) => stmt_str(s),
        NodeV::Expression(e) => expr_str(e),
    }
}

pub proof fn lemma_join_step(parts: Seq<Seq<char>>, i: int)
    requires
        0 <= i < parts.len(),
    ensures
        join(parts.subrange(0, i + 1)) == if i == 0 {
            parts[0]
        } else {
            join(parts.subrange(0, i)) + ", "@ + parts[i]
        },
{
    assert(parts.subrange(0, i + 1).subrange(0, i) =~= parts.subrange(0, i));
}

pub proof fn lemma_concat_step(parts: Seq<Seq<char>>, i: int)
    requires
        0 <= i < parts.len(),
    ensures
        concat(parts.subrange(0, i + 1)) == concat(parts.subrange(0, i)) + parts[i],
{
    assert(parts.subrange(0, i + 1).subrange(0, i) =~= parts.subrange(0, i));
}

pub proof fn lemma_stmts_text(s: Seq<StatementV>)
    ensures
        stmts_text(s).len() == s.len(),
        forall|i: int| 0 <= i < s.len() ==> #[trigger] stmts_text(s)[i] == stmt_str(s[i]),
    decreases s.len(),
{
    if s.len() > 0 {
        lemma_stmts_text(s.subrange(0, s.len() - 1));
    }
}

pub proof fn lemma_exprs_text(s: Seq<ExpressionV>)
    ensures
        exprs_text(s).len() == s.len(),
        forall|i: int| 0 <= i < s.len() ==> #[trigger] exprs_text(s)[i] == expr_str(s[i]),
    decreases s.len(),
{
    if s.len() > 0 {
        lemma_exprs_text(s.subrange(0, s.len() - 1));
    }
}

/// Appends the texts of `stmts`, one after the other.
fn push_statements(out: &mut String, stmts: &Vec<Statement>)
    ensures
        final(out)@ == old(out)@ + concat(stmts_text(stmts_view(stmts@))),
    decreases stmts,
{
    proof {
        lemma_stmts_view(stmts@);
        lemma_stmts_text(stmts_view(stmts@));
    }
    let ghost parts = stmts_text(stmts_view(stmts@));
    let n = stmts.len();
    let mut i: usize = 0;
    while i < n
        invariant
            n == stmts@.len(),
            i <= n,
            parts == stmts_text(stmts_view(stmts@)),
            parts.len() == n,
            forall|j: int| 0 <= j < n ==> #[trigger] parts[j] == stmt_str(stmts@[j]@),
            out@ == old(out)@ + concat(parts.subrange(0, i as int)),
        decreases n - i,
    {
        proof {
            lemma_concat_step(parts, i as int);
            assert(decreases_to!(stmts => stmts@[i as int]));
        }
        let s = stmts[i].string();
        out.append(s.as_str());
        i = i + 1;
    }
    assert(parts.subrange(0, n as int) =~= parts);
}

impl Program {
    pub fn string(&self) -> (r: String)
        ensures
            r@ == program_str(self@),
    {
        let mut out = String::new();
        push_statements(&mut out, &self.statements);
        assert(out@ =~= program_str(self@));
        out
    }
}

impl Node {
    pub fn string(&self) -> (r: String)
        ensures
            r@ == node_str(self@),
    {
        match self {
            Node::Program(p) => p.string(),
            Node::Statement(s) => s.string(),
            Node::Expression(e) => e.string(),
        }
    }
}

impl Statement {
    pub fn string(&self) -> (r: String)
        ensures
            r@ == stmt_str(self@),
        decreases self,
    {
        match self {
            Statement::Let(s) => s.string(),
            Statement::Return(s) => s.string(),
            Statement::Expression(s) => s.expression.string(),
            Statement::Block(s) => s.string(),
        }
    }
}

impl LetStatement {
    pub fn string(&self) -> (r: String)
        ensures
            r@ == stmt_str(Statement::Let(*self)@),
        decreases self,
    {
        let mut out = self.token.literal.clone();
        out.append(" ");
        out.append(self.name.value.as_str());
        out.append(" = ");
        let v = self.value.string();
        out.append(v.as_str());
        out.append(";");
        assert(out@ =~= stmt_str(Statement::Let(*self)@));
        out
    }
}

impl ReturnStatement {
    pub fn string(&self) -> (r: String)
        ensures
            r@ == stmt_str(Statement::Return(*self)@),
        decreases self,
    {
        let mut out = self.token.literal.clone();
        out.append(" ");
        match &self.return_value {
            Some(v) => {
                let s = v.string();
                out.append(s.as_str());
            },
            None => {},
        }
        out.append(";");
        assert(out@ =~= stmt_str(Statement::Return(*self)@));
        out
    }
}

impl ExpressionStatement {
    pub fn string(&self) -> (r: String)
        ensures
            r@ == stmt_str(Statement::Expression(*self)@),
    {
        self.expression.string()
    }
}

impl BlockStatement {
    pub fn string(&self) -> (r: String)
        ensures
            r@ == block_str(self@),
        decreases self,
    {
        let mut out = String::new();
        push_statements(&mut out, &self.statements);
        assert(out@ =~= block_str(self@));
        out
    }
}

impl Identifier {
    pub fn string(&self) -> (r: String)
        ensures
            r@ == self.value@,
    {
        self.value.clone()
    }

    /// A copy of this identifier with the same value.
    pub fn duplicate(&self) -> (r: Identifier)
        ensures
            r@ == self@,
    {
        Identifier { token: self.token.duplicate(), value: self.value.clone() }
    }
}

/// Appends the texts of `params`, separated by `", "`.
pub fn push_identifiers(out: &mut String, params: &Vec<Identifier>)
    ensures
        final(out)@ == old(out)@ + join(idents_text(idents_view(params@))),
{
    proof {
        lemma_idents_view(params@);
    }
    let ghost parts = idents_text(idents_view(params@));
    let n = params.len();
    let mut i: usize = 0;
    while i < n
        invariant
            n == params@.len(),
            i <= n,
            parts == idents_text(idents_view(params@)),
            parts.len() == n,
            forall|j: int| 0 <= j < n ==> #[trigger] parts[j] == params@[j].value@,
            out@ == old(out)@ + join(parts.subrange(0, i as int)),
        decreases n - i,
    {
        proof {
            lemma_join_step(parts, i as int);
        }
        if i > 0 {
            out.append(", ");
        }
        out.append(params[i].value.as_str());
        i = i + 1;
    }
    assert(parts.subrange(0, n as int) =~= parts);
}

/// Appends the texts of `args`, separated by `", "`.
fn push_expressions(out: &mut String, args: &Vec<Expression>)
    ensures
        final(out)@ == old(out)@ + join(exprs_text(exprs_view(args@))),
    decreases args,
{
    proof {
        lemma_exprs_view(args@);
        lemma_exprs_text(exprs_view(args@));
    }
    let ghost parts = exprs_text(exprs_view(args@));
    let n = args.len();
    let mut i: usize = 0;
    while i < n
        invariant
            n == args@.len(),
            i <= n,
            parts == exprs_text(exprs_view(args@)),
            parts.len() == n,
            forall|j: int| 0 <= j < n ==> #[trigger] parts[j] == expr_str(args@[j]@),
            out@ == old(out)@ + join(parts.subrange(0, i as int)),
        decreases n - i,
    {
        proof {
            lemma_join_step(parts, i as int);
            assert(decreases_to!(args => args@[i as int]));
        }
        if i > 0 {
            out.append(", ");
        }
        let s = args[i].string();
        out.append(s.as_str());
        i = i + 1;
    }
    assert(parts.subrange(0, n as int) =~= parts);
}

impl Expression {
    pub fn string(&self) -> (r: String)
        ensures
            r@ == expr_str(self@),
        decreases self,
    {
        let mut out = String::new();
        match self {
            Expression::Identifier(i) => {
                out.append(i.value.as_str());
            },
            Expression::IntegerLiteral(i) => {
                push_int(&mut out, i.value);
            },
            Expression::Prefix(p) => {
                out.append("(");
                out.append(p.operator.as_str());
                let s = p.right.string();
                out.append(s.as_str());
                out.append(")");
            },
            Expression::Infix(i) => {
                out.append("(");
                let l = i.left.string();
                out.append(l.as_str());
                out.append(" ");
                out.append(i.operator.as_str());
                out.append(" ");
                let r = i.right.string();
                out.append(r.as_str());
                out.append(")");
            },
            Expression::Boolean(b) => {
                out.append(b.token.literal.as_str());
            },
            Expression::If(i) => {
                out.append("if ");
                let c = i.condition.string();
                out.append(c.as_str());
                out.append(" ");
                let b = i.consequence.string();
                out.append(b.as_str());
                match &i.alternative {
                    Some(alt) => {
                        out.append(" else ");
                        let a = alt.string();
                        out.append(a.as_str());
                    },
                    None => {},
                }
            },
            Expression::FunctionLiteral(f) => {
                out.append(f.token.literal.as_str());
                out.append("(");
                push_identifiers(&mut out, &f.parameters);
                out.append(") ");
                let b = f.body.string();
                out.append(b.as_str());
            },
            Expression::Call(c) => {
                let f = c.function.string();
                out.append(f.as_str());
                out.append("(");
                push_expressions(&mut out, &c.arguments);
                out.append(")");
            },
            Expression::StringLiteral(s) => {
                out.append("\"");
                out.append(s.value.as_str());
                out.append("\"");
            },
        }
        assert(out@ =~= expr_str(self@));
        out
    }
}

// --- Copies ---
/// A copy of a list of identifiers with the same value.
pub fn duplicate_identifiers(v: &Vec<Identifier>) -> (r: Vec<Identifier>)
    ensures
        idents_view(r@) == idents_view(v@),
{
    let mut out: Vec<Identifier> = Vec::new();
    let n = v.len();
    let mut i: usize = 0;
    while i < n
        invariant
            n == v@.len(),
            i <= n,
            idents_view(out@) == idents_view(v@.subrange(0, i as int)),
        decreases n - i,
    {
        let x = v[i].duplicate();
        proof {
            assert(out@.push(x).subrange(0, out@.len() as int) =~= out@);
            assert(v@.subrange(0, i + 1).subrange(0, i as int) =~= v@.subrange(0, i as int));
        }
        out.push(x);
        i = i + 1;
    }
    assert(v@.subrange(0, n as int) =~= v@);
    out
}

/// A copy of a list of statements with the same value.
pub fn duplicate_statements(v: &Vec<Statement>) -> (r: Vec<Statement>)
    ensures
        stmts_view(r@) == stmts_view(v@),
    decreases v,
{
    let mut out: Vec<Statement> = Vec::new();
    let n = v.len();
    let mut i: usize = 0;
    while i < n
        invariant
            n == v@.len(),
            i <= n,
            stmts_view(out@) == stmts_view(v@.subrange(0, i as int)),
        decreases n - i,
    {
        proof {
            assert(decreases_to!(v => v@[i as int]));
        }
        let x = v[i].duplicate();
        proof {
            assert(out@.push(x).subrange(0, out@.len() as int) =~= out@);
            assert(v@.subrange(0, i + 1).subrange(0, i as int) =~= v@.subrange(0, i as int));
        }
        out.push(x);
        i = i + 1;
    }
    assert(v@.subrange(0, n as int) =~= v@);
    out
}

/// A copy of a list of expressions with the same value.
pub fn duplicate_expressions(v: &Vec<Expression>) -> (r: Vec<Expression>)
    ensures
        exprs_view(r@) == exprs_view(v@),
    decreases v,
{
    let mut out: Vec<Expression> = Vec::new();
    let n = v.len();
    let mut i: usize = 0;
    while i < n
        invariant
            n == v@.len(),
            i <= n,
            exprs_view(out@) == exprs_view(v@.subrange(0, i as int)),
        decreases n - i,
    {
        proof {
            assert(decreases_to!(v => v@[i as int]));
        }
        let x = v[i].duplicate();
        proof {
            assert(out@.push(x).subrange(0, out@.len() as int) =~= out@);
            assert(v@.subrange(0, i + 1).subrange(0, i as int) =~= v@.subrange(0, i as int));
        }
        out.push(x);
        i = i + 1;
    }
    assert(v@.subrange(0, n as int) =~= v@);
    out
}

impl BlockStatement {
    /// A copy of this block with the same value.
    pub fn duplicate(&self) -> (r: BlockStatement)
        ensures
            r@ == self@,
        decreases self,
    {
        BlockStatement {
            token: self.token.duplicate(),
            statements: duplicate_statements(&self.statements),
        }
    }
}

impl Statement {
    /// A copy of this statement with the same value.
    pub fn duplicate(&self) -> (r: Statement)
        ensures
            r@ == self@,
        decreases self,
    {
        match self {
            Statement::Let(l) => Statement::Let(
                LetStatement {
                    token: l.token.duplicate(),
                    name: l.name.duplicate(),
                    value: l.value.duplicate(),
                },
            ),
            Statement::Return(r) => Statement::Return(
                ReturnStatement {
                    token: r.token.duplicate(),
                    return_value: match &r.return_value {
                        Some(e) => Some(Box::new(e.duplicate())),
                        None => None,
                    },
                },
            ),
            Statement::Expression(e) => Statement::Expression(
                ExpressionStatement {
                    token: e.token.duplicate(),
                    expression: Box::new(e.expression.duplicate()),
                },
            ),
            Statement::Block(b) => Statement::Block(b.duplicate()),
        }
    }
}

impl Expression {
    /// A copy of this expression with the same value.
    pub fn duplicate(&self) -> (r: Expression)
        ensures
            r@ == self@,
        decreases self,
    {
        match self {
            Expression::Identifier(i) => Expression::Identifier(i.duplicate()),
            Expression::IntegerLiteral(i) => Expression::IntegerLiteral(
                IntegerLiteral { token: i.token.duplicate(), value: i.value },
            ),
            Expression::Prefix(p) => Expression::Prefix(
                PrefixExpression {
                    token: p.token.duplicate(),
                    operator: p.operator.clone(),
                    right: Box::new(p.right.duplicate()),
                },
            ),
            Expression::Infix(i) => Expression::Infix(
                InfixExpression {
                    token: i.token.duplicate(),
                    left: Box::new(i.left.duplicate()),
                    operator: i.operator.clone(),
                    right: Box::new(i.right.duplicate()),
                },
            ),
            Expression::Boolean(b) => Expression::Boolean(
                Boolean { token: b.token.duplicate(), value: b.value },
            ),
            Expression::If(i) => Expression::If(
                IfExpression {
                    token: i.token.duplicate(),
                    condition: Box::new(i.condition.duplicate()),
                    consequence: i.consequence.duplicate(),
                    alternative: match &i.alternative {
                        Some(b) => Some(b.duplicate()),
                        None => None,
                    },
                },
            ),
            Expression::FunctionLiteral(f) => Expression::FunctionLiteral(
                FunctionLiteral {
                    token: f.token.duplicate(),
                    parameters: duplicate_identifiers(&f.parameters),
                    body: f.body.duplicate(),
                },
            ),
            Expression::Call(c) => Expression::Call(
                CallExpression {
                    token: c.token.duplicate(),
                    function: Box::new(c.function.duplicate()),
                    arguments: duplicate_expressions(&c.arguments),
                },
            ),
            Expression::StringLiteral(s) => Expression::StringLiteral(
                StringLiteral { token: s.token.duplicate(), value: s.value.clone() },
            ),
        }
    }
}

} // verus!
