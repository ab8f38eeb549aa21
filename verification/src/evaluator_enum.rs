//! The plain evaluator: integers, booleans, prefix and infix operators and
//! conditionals, without environments or functions.
//!
//! Its behavior is the `plain_` spec functions in this file. A run stops
//! without a value (a `Fault`) where an operand gives no value, where integer
//! arithmetic overflows, and on division by zero.
use vstd::prelude::*;
use vstd::string::*;

use crate::ast::{ExpressionV, NodeV, StatementV};
use crate::ast_enum as ast;
use crate::environment::FrameV;
use crate::evaluator::{
    ev_args, ev_bang, ev_block, ev_call, ev_expr, ev_stmt, trunc_div, truthy, Fault,
};
use crate::object::ObjectV;
use crate::object_enum as object;
use crate::token::str_eq;

verus! {

broadcast use {vstd::seq::axiom_seq_subrange_decreases, vstd::seq::axiom_seq_index_decreases};

pub type PlainRes = Result<Option<ObjectV>, Fault>;

pub open spec fn plain_res_view(r: Result<Option<object::Object>, Fault>) -> PlainRes {
    match r {
        Ok(Some(o)) => Ok(Some(o@)),
        Ok(None) => Ok(None),
        Err(f) => Err(f),
    }
}

/// `-` on a value: the negated integer, null for anything else.
pub open spec fn plain_minus(o: ObjectV) -> PlainRes {
    match o {
        ObjectV::Integer(i) => if i == i64::MIN {
            Err(Fault::Overflow)
        } else {
            Ok(Some(ObjectV::Integer((-i) as i64)))
        },
        _ => Ok(Some(ObjectV::Null)),
    }
}

pub open spec fn plain_prefix(op: Seq<char>, o: ObjectV) -> PlainRes {
    if op == "!"@ {
        Ok(Some(ev_bang(o)))
    } else if op == "-"@ {
        plain_minus(o)
    } else {
        Ok(Some(ObjectV::Null))
    }
}

pub open spec fn plain_int(v: int) -> PlainRes {
    if i64::MIN <= v <= i64::MAX {
        Ok(Some(ObjectV::Integer(v as i64)))
    } else {
        Err(Fault::Overflow)
    }
}

pub open spec fn plain_int_infix(op: Seq<char>, l: i64, r: i64) -> PlainRes {
    if op == "+"@ {
        plain_int(l + r)
    } else if op == "-"@ {
        plain_int(l - r)
    } else if op == "*"@ {
        plain_int(l * r)
    } else if op == "/"@ {
        if r == 0 {
            Err(Fault::DivisionByZero)
        } else {
            plain_int(trunc_div(l as int, r as int))
        }
    } else if op == "<"@ {
        Ok(Some(ObjectV::Boolean(l < r)))
    } else if op == ">"@ {
        Ok(Some(ObjectV::Boolean(l > r)))
    } else if op == "=="@ {
        Ok(Some(ObjectV::Boolean(l == r)))
    } else if op == "!="@ {
        Ok(Some(ObjectV::Boolean(l != r)))
    } else {
        Ok(Some(ObjectV::Null))
    }
}

pub open spec fn plain_infix(op: Seq<char>, l: ObjectV, r: ObjectV) -> PlainRes {
    match (l, r) {
        (ObjectV::Integer(a), ObjectV::Integer(b)) => plain_int_infix(op, a, b),
        (ObjectV::Boolean(a), ObjectV::Boolean(b)) => if op == "=="@ {
            Ok(Some(ObjectV::Boolean(a == b)))
        } else if op == "!="@ {
            Ok(Some(ObjectV::Boolean(a != b)))
        } else {
            Ok(Some(ObjectV::Null))
        },
        _ => Ok(Some(ObjectV::Null)),
    }
}

/// The value of an operand: an operand without a value stops the run.
pub open spec fn operand(r: PlainRes) -> Result<ObjectV, Fault> {
    match r {
        Ok(Some(v)) => Ok(v),
        Ok(None) => Err(Fault::NoValue),
        Err(f) => Err(f),
    }
}

/// The value of an expression; the name `null` stands for null, and other
/// names, functions and calls have no value.
pub open spec fn plain_expr(e: ExpressionV) -> PlainRes
    decreases e,
{
    match e {
        ExpressionV::IntegerLiteral { token, value } => Ok(Some(ObjectV::Integer(value))),
        ExpressionV::Boolean { token, value } => Ok(Some(ObjectV::Boolean(value))),
        ExpressionV::Prefix { token, operator, right } => match operand(plain_expr(*right)) {
            Ok(v) => plain_prefix(operator, v),
            Err(f) => Err(f),
        },
        ExpressionV::Infix { token, left, operator, right } => match operand(plain_expr(*left)) {
            Ok(l) => match operand(plain_expr(*right)) {
                Ok(r) => plain_infix(operator, l, r),
                Err(f) => Err(f),
            },
            Err(f) => Err(f),
        },
        ExpressionV::If { token, condition, consequence, alternative } => match plain_expr(
            *condition,
        ) {
            Ok(Some(c)) => if truthy(c) {
                plain_block(consequence.statements, None)
            } else {
                match alternative {
                    Some(b) => plain_block(b.statements, None),
                    None => Ok(Some(ObjectV::Null)),
                }
            },
            other => other,
        },
        ExpressionV::Identifier(i) => if i.value == "null"@ {
            Ok(Some(ObjectV::Null))
        } else {
            Ok(None)
        },
        _ => Ok(None),
    }
}

/// The value of a statement: `let` and `return` have none.
pub open spec fn plain_stmt(s: StatementV) -> PlainRes
    decreases s,
{
    match s {
        StatementV::Expression { token, expression } => plain_expr(expression),
        StatementV::Block(b) => plain_block(b.statements, None),
        _ => Ok(None),
    }
}

/// The value of the last of a list of statements; `acc` is the value so far.
pub open spec fn plain_block(stmts: Seq<StatementV>, acc: Option<ObjectV>) -> PlainRes
    decreases stmts,
{
    if stmts.len() == 0 {
        Ok(acc)
    } else {
        match plain_stmt(stmts[0]) {
            Ok(r) => plain_block(stmts.subrange(1, stmts.len() as int), r),
            Err(f) => Err(f),
        }
    }
}

pub open spec fn plain_node(n: NodeV) -> PlainRes {
    match n {
        NodeV::Program(p) => plain_block(p.statements, None),
        NodeV::Statement(s) => plain_stmt(s),
        NodeV::Expression(e) => plain_expr(e),
    }
}

fn null() -> (r: object::Object)
    ensures
        r@ == ObjectV::Null,
{
    object::Object::Null(object::Null {})
}

fn boolean(value: bool) -> (r: object::Object)
    ensures
        r@ == ObjectV::Boolean(value),
{
    object::Object::Boolean(object::Boolean { value })
}

fn is_truthy(c: &object::Object) -> (r: bool)
    ensures
        r == truthy(c@),
{
    match c {
        object::Object::Boolean(b) => b.value,
        object::Object::Null(_) => false,
        _ => true,
    }
}

fn eval_bang_operator_expression(right: object::Object) -> (r: object::Object)
    ensures
        r@ == ev_bang(right@),
{
    match right {
        object::Object::Boolean(b) => boolean(!b.value),
        object::Object::Integer(i) => boolean(i.value == 0),
        object::Object::Null(_) => boolean(true),
        _ => boolean(false),
    }
}

fn eval_minus_prefix_operator_expression(right: object::Object) -> (r: Result<
    Option<object::Object>,
    Fault,
>)
    ensures
        plain_res_view(r) == plain_minus(right@),
{
    match right {
        object::Object::Integer(i) => {
            if i.value == i64::MIN {
                Err(Fault::Overflow)
            } else {
                Ok(Some(object::Object::Integer(object::Integer { value: -i.value })))
            }
        },
        _ => Ok(Some(null())),
    }
}

fn eval_prefix_expression(operator: &str, right: object::Object) -> (r: Result<
    Option<object::Object>,
    Fault,
>)
    ensures
        plain_res_view(r) == plain_prefix(operator@, right@),
{
    if str_eq(operator, "!") {
        Ok(Some(eval_bang_operator_expression(right)))
    } else if str_eq(operator, "-") {
        eval_minus_prefix_operator_expression(right)
    } else {
        Ok(Some(null()))
    }
}

fn int_object(v: Option<i64>) -> (r: Result<Option<object::Object>, Fault>)
    ensures
        plain_res_view(r) == match v {
            Some(x) => PlainRes::Ok(Some(ObjectV::Integer(x))),
            None => PlainRes::Err(Fault::Overflow),
        },
{
    match v {
        Some(x) => Ok(Some(object::Object::Integer(object::Integer { value: x }))),
        None => Err(Fault::Overflow),
    }
}

fn eval_integer_infix_expression(
    operator: &str,
    left: &object::Integer,
    right: &object::Integer,
) -> (r: Result<Option<object::Object>, Fault>)
    ensures
        plain_res_view(r) == plain_int_infix(operator@, left.value, right.value),
{
    let l: i64 = left.value;
    let r: i64 = right.value;
    if str_eq(operator, "+") {
        int_object(l.checked_add(r))
    } else if str_eq(operator, "-") {
        int_object(l.checked_sub(r))
    } else if str_eq(operator, "*") {
        int_object(l.checked_mul(r))
    } else if str_eq(operator, "/") {
        if r == 0 {
            Err(Fault::DivisionByZero)
        } else {
            int_object(l.checked_div(r))
        }
    } else if str_eq(operator, "<") {
        Ok(Some(boolean(l < r)))
    } else if str_eq(operator, ">") {
        Ok(Some(boolean(l > r)))
    } else if str_eq(operator, "==") {
        Ok(Some(boolean(l == r)))
    } else if str_eq(operator, "!=") {
        Ok(Some(boolean(l != r)))
    } else {
        Ok(Some(null()))
    }
}

fn eval_infix_expression(operator: &str, left: object::Object, right: object::Object) -> (r:
    Result<Option<object::Object>, Fault>)
    ensures
        plain_res_view(r) == plain_infix(operator@, left@, right@),
{
    match (&left, &right) {
        (object::Object::Integer(a), object::Object::Integer(b)) => eval_integer_infix_expression(
            operator,
            a,
            b,
        ),
        (object::Object::Boolean(a), object::Object::Boolean(b)) => {
            if str_eq(operator, "==") {
                Ok(Some(boolean(a.value == b.value)))
            } else if str_eq(operator, "!=") {
                Ok(Some(boolean(a.value != b.value)))
            } else {
                Ok(Some(null()))
            }
        },
        _ => Ok(Some(null())),
    }
}

/// Evaluates an expression.
fn eval_expression(expression: &ast::Expression) -> (r: Result<Option<object::Object>, Fault>)
    ensures
        plain_res_view(r) == plain_expr(expression@),
    decreases expression,
{
    match expression {
        ast::Expression::IntegerLiteral(i) => Ok(
            Some(object::Object::Integer(object::Integer { value: i.value })),
        ),
        ast::Expression::Boolean(b) => Ok(Some(boolean(b.value))),
        ast::Expression::Prefix(p) => {
            match eval_expression(&p.right) {
                Ok(Some(right)) => eval_prefix_expression(p.operator.as_str(), right),
                Ok(None) => Err(Fault::NoValue),
                Err(f) => Err(f),
            }
        },
        ast::Expression::Infix(i) => {
            match eval_expression(&i.left) {
                Ok(Some(left)) => match eval_expression(&i.right) {
                    Ok(Some(right)) => eval_infix_expression(i.operator.as_str(), left, right),
                    Ok(None) => Err(Fault::NoValue),
                    Err(f) => Err(f),
                },
                Ok(None) => Err(Fault::NoValue),
                Err(f) => Err(f),
            }
        },
        ast::Expression::If(i) => eval_if_expression(i),
        ast::Expression::Identifier(i) => {
            if str_eq(i.value.as_str(), "null") {
                Ok(Some(null()))
            } else {
                Ok(None)
            }
        },
        _ => Ok(None),
    }
}

/// Evaluates an `if` expression.
fn eval_if_expression(if_expr: &ast::IfExpression) -> (r: Result<Option<object::Object>, Fault>)
    ensures
        plain_res_view(r) == plain_expr(ast::Expression::If(*if_expr)@),
    decreases if_expr,
{
    proof {
        assert(if_expr.consequence@.statements == ast::stmts_view(
            if_expr.consequence.statements@,
        ));
        if if_expr.alternative is Some {
            let b = if_expr.alternative->0;
            assert(b@.statements == ast::stmts_view(b.statements@));
        }
    }
    match eval_expression(&if_expr.condition) {
        Ok(Some(condition)) => {
            if is_truthy(&condition) {
                eval_statements(&if_expr.consequence.statements)
            } else {
                match &if_expr.alternative {
                    Some(alt) => eval_statements(&alt.statements),
                    None => Ok(Some(null())),
                }
            }
        },
        Ok(None) => Ok(None),
        Err(f) => Err(f),
    }
}

/// Evaluates a statement.
fn eval_statement(statement: &ast::Statement) -> (r: Result<Option<object::Object>, Fault>)
    ensures
        plain_res_view(r) == plain_stmt(statement@),
    decreases statement,
{
    match statement {
        ast::Statement::Expression(e) => eval_expression(&e.expression),
        ast::Statement::Block(b) => eval_statements(&b.statements),
        _ => Ok(None),
    }
}

/// Evaluates statements in turn; the value is the last one's.
fn eval_statements(statements: &Vec<ast::Statement>) -> (r: Result<Option<object::Object>, Fault>)
    ensures
        plain_res_view(r) == plain_block(ast::stmts_view(statements@), None),
    decreases statements,
{
    let ghost ss = ast::stmts_view(statements@);
    proof {
        ast::lemma_stmts_view(statements@);
        assert(ss.subrange(0, ss.len() as int) =~= ss);
    }
    let mut result: Option<object::Object> = None;
    let n = statements.len();
    let mut i: usize = 0;
    while i < n
        invariant
            n == statements@.len(),
            ss == ast::stmts_view(statements@),
            ss.len() == n,
            forall|k: int| 0 <= k < n ==> #[trigger] ss[k] == statements@[k]@,
            i <= n,
            plain_block(ss, None) == plain_block(
                ss.subrange(i as int, n as int),
                match result {
                    Some(o) => Some(o@),
                    None => None,
                },
            ),
        decreases n - i,
    {
        proof {
            assert(decreases_to!(statements => statements@[i as int]));
            let rest = ss.subrange(i as int, n as int);
            assert(rest[0] == ss[i as int]);
            assert(rest.subrange(1, rest.len() as int) =~= ss.subrange(i + 1, n as int));
        }
        match eval_statement(&statements[i]) {
            Ok(r) => {
                result = r;
            },
            Err(f) => {
                return Err(f);
            },
        }
        i = i + 1;
    }
    Ok(result)
}

/// Evaluates a node, stopping with the reason where the plain evaluator
/// gives no value (see `Fault`).
pub fn try_eval(node: &ast::Node) -> (r: Result<Option<object::Object>, Fault>)
    ensures
        plain_res_view(r) == plain_node(node@),
{
    match node {
        ast::Node::Program(p) => eval_statements(&p.statements),
        ast::Node::Statement(s) => eval_statement(s),
        ast::Node::Expression(e) => eval_expression(e),
    }
}

/// Evaluates a node: the value of a program, statement or expression, or none.
pub fn eval(node: ast::Node) -> (r: Option<object::Object>)
    requires
        plain_node(node@) is Ok,
    ensures
        plain_node(node@) == PlainRes::Ok(
            match r {
                Some(o) => Some(o@),
                None => None,
            },
        ),
{
    match try_eval(&node) {
        Ok(r) => r,
        Err(_) => None,
    }
}

/// Integer arithmetic: integer literals, with `-` before and `+`, `-`, `*`
/// and `/` between them.
pub open spec fn is_arith(e: ExpressionV) -> bool
    decreases e,
{
    match e {
        ExpressionV::IntegerLiteral { .. } => true,
        ExpressionV::Prefix { operator, right, .. } => operator == "-"@ && is_arith(*right),
        ExpressionV::Infix { left, operator, right, .. } => (operator == "+"@ || operator == "-"@
            || operator == "*"@ || operator == "/"@) && is_arith(*left) && is_arith(*right),
        _ => false,
    }
}

/// On integer arithmetic the plain evaluator and the evaluator agree, in any
/// environment, which the evaluator leaves as it was; the value is an integer
/// unless the run stops.
pub proof fn lemma_arith_agrees(fuel: nat, e: ExpressionV, h: Seq<FrameV>, env: nat)
    requires
        is_arith(e),
    ensures
        ev_expr(fuel, e, h, env) == (plain_expr(e), h),
        plain_expr(e) is Err || plain_expr(e) matches Ok(Some(ObjectV::Integer(_))),
    decreases e,
{
    reveal(ev_expr);
    reveal(ev_args);
    reveal(ev_stmt);
    reveal(ev_block);
    reveal(ev_call);
    reveal_strlit("!");
    reveal_strlit("+");
    reveal_strlit("-");
    reveal_strlit("*");
    reveal_strlit("/");
    match e {
        ExpressionV::Prefix { right, .. } => {
            lemma_arith_agrees(fuel, *right, h, env);
            assert("-"@[0] != "!"@[0]);
        },
        ExpressionV::Infix { left, right, .. } => {
            lemma_arith_agrees(fuel, *left, h, env);
            lemma_arith_agrees(fuel, *right, h, env);
        },
        _ => {},
    }
}

/// In the plain evaluator, integer operators mean what they say: `+`, `-`
/// and `*` give the exact result when it fits in an `i64`; `==` holds
/// exactly when the integers are equal and `!=` exactly when they differ,
/// the one the negation of the other; `<` and `>` order them, each the other
/// with the operands swapped; other operators give null.
pub proof fn lemma_plain_integer_operators(l: i64, r: i64)
    ensures
        plain_int_infix("+"@, l, r) == (if i64::MIN <= l + r <= i64::MAX {
            PlainRes::Ok(Some(ObjectV::Integer((l + r) as i64)))
        } else {
            PlainRes::Err(Fault::Overflow)
        }),
        plain_int_infix("-"@, l, r) == (if i64::MIN <= l - r <= i64::MAX {
            PlainRes::Ok(Some(ObjectV::Integer((l - r) as i64)))
        } else {
            PlainRes::Err(Fault::Overflow)
        }),
        plain_int_infix("*"@, l, r) == plain_int_infix("*"@, r, l),
        plain_int_infix("+"@, l, r) == plain_int_infix("+"@, r, l),
        plain_int_infix("=="@, l, r) == PlainRes::Ok(Some(ObjectV::Boolean(l == r))),
        plain_int_infix("!="@, l, r) == PlainRes::Ok(Some(ObjectV::Boolean(l != r))),
        plain_int_infix("<"@, l, r) == PlainRes::Ok(Some(ObjectV::Boolean(l < r))),
        plain_int_infix(">"@, l, r) == PlainRes::Ok(Some(ObjectV::Boolean(l > r))),
        plain_int_infix("!="@, l, r) == PlainRes::Ok(
            Some(ObjectV::Boolean(!(plain_int_infix("=="@, l, r)->Ok_0->Some_0->Boolean_0))),
        ),
        plain_int_infix("<"@, l, r) == plain_int_infix(">"@, r, l),
        plain_int_infix("%"@, l, r) == PlainRes::Ok(Some(ObjectV::Null)),
{
    crate::evaluator::lemma_operators_differ();
    reveal_strlit("%");
    reveal_strlit("+");
    reveal_strlit("-");
    reveal_strlit("*");
    reveal_strlit("/");
    reveal_strlit("<");
    reveal_strlit(">");
    reveal_strlit("==");
    reveal_strlit("!=");
    assert("%"@[0] != "+"@[0]);
    assert("%"@[0] != "-"@[0]);
    assert("%"@[0] != "*"@[0]);
    assert("%"@[0] != "/"@[0]);
    assert("%"@[0] != "<"@[0]);
    assert("%"@[0] != ">"@[0]);
    assert("%"@.len() != "=="@.len());
    assert("%"@.len() != "!="@.len());
    assert(l * r == r * l) by (nonlinear_arith);
}

/// The plain evaluator agrees with the evaluator on integer comparisons:
/// both give the same boolean for `==`, `!=`, `<` and `>`.
pub proof fn lemma_plain_comparisons_agree(l: i64, r: i64)
    ensures
        plain_int_infix("=="@, l, r) == PlainRes::Ok(
            Some(crate::evaluator::ev_int_infix("=="@, l, r)->Ok_0),
        ),
        plain_int_infix("!="@, l, r) == PlainRes::Ok(
            Some(crate::evaluator::ev_int_infix("!="@, l, r)->Ok_0),
        ),
        plain_int_infix("<"@, l, r) == PlainRes::Ok(
            Some(crate::evaluator::ev_int_infix("<"@, l, r)->Ok_0),
        ),
        plain_int_infix(">"@, l, r) == PlainRes::Ok(
            Some(crate::evaluator::ev_int_infix(">"@, l, r)->Ok_0),
        ),
{
    crate::evaluator::lemma_integer_operators(l, r);
    lemma_plain_integer_operators(l, r);
}

/// In the plain evaluator `!` negates booleans and gives `true` on null and
/// on zero only; `-` negates integers and gives null on anything else; the
/// name `null` is null, other names have no value.
pub proof fn lemma_plain_prefix_operators(o: ObjectV, name: Seq<char>, t: crate::token::TokenV)
    ensures
        o is Boolean ==> plain_prefix("!"@, o) == PlainRes::Ok(
            Some(ObjectV::Boolean(!o->Boolean_0)),
        ),
        o is Null ==> plain_prefix("!"@, o) == PlainRes::Ok(Some(ObjectV::Boolean(true))),
        o is Integer ==> plain_prefix("!"@, o) == PlainRes::Ok(
            Some(ObjectV::Boolean(o->Integer_0 == 0)),
        ),
        o is Integer && o->Integer_0 != i64::MIN ==> plain_prefix("-"@, o) == PlainRes::Ok(
            Some(ObjectV::Integer((-o->Integer_0) as i64)),
        ),
        !(o is Integer) ==> plain_prefix("-"@, o) == PlainRes::Ok(Some(ObjectV::Null)),
        plain_expr(ExpressionV::Identifier(crate::ast::IdentifierV { token: t, value: name }))
            == (if name == "null"@ {
            PlainRes::Ok(Some(ObjectV::Null))
        } else {
            PlainRes::Ok(None)
        }),
{
    reveal_strlit("!");
    reveal_strlit("-");
    assert("-"@[0] != "!"@[0]);
}

/// In the plain evaluator a block's value is its last statement's, and
/// `let` and `return` statements have none.
pub proof fn lemma_plain_block_takes_last(s: StatementV, rest: Seq<StatementV>, acc: Option<ObjectV>)
    requires
        plain_stmt(s) is Ok,
    ensures
        plain_block(seq![s] + rest, acc) == plain_block(rest, plain_stmt(s)->Ok_0),
        s is Let ==> plain_stmt(s) == PlainRes::Ok(None),
        s is Return ==> plain_stmt(s) == PlainRes::Ok(None),
{
    let ss = seq![s] + rest;
    assert(ss[0] == s);
    assert(ss.subrange(1, ss.len() as int) =~= rest);
}

} // verus!
