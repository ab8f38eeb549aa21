//! The evaluator: runs a syntax tree in an environment.
//!
//! Its behavior is the big-step semantics of the `ev_` spec functions in this
//! file, over the values of trees, objects and environments. A run either
//! gives a value (or none), or stops where the language gives no value:
//! arithmetic overflow, division by zero, a call with too few arguments, a
//! function body without a value, or calls nested deeper than `MAX_DEPTH`,
//! the largest `u64`, a depth that no machine's stack reaches.
use vstd::prelude::*;
use vstd::string::*;

use crate::ast;
use crate::ast::{BlockStatementV, ExpressionV, IdentifierV, NodeV, StatementV};
use crate::token::TokenV;
use crate::environment::{define_in, enclose, lookup, Env, EnvStore, Environment, FrameV};
use crate::object::{
    bad_operator_msg, kind_name, undefined_variable_msg, unknown_operator_msg, Boolean, Error,
    Function, Integer, Null, Object, ObjectV, Return, String_, INTEGER_OBJ,
};
use crate::token::str_eq;

verus! {

broadcast use {vstd::seq::axiom_seq_subrange_decreases, vstd::seq::axiom_seq_index_decreases};

/// How deep calls may nest: the largest `u64`, so that only the machine's
/// own limits bound the nesting of calls.
pub const MAX_DEPTH: u64 = 0xffff_ffff_ffff_ffff;

/// Where a run stops without a value.
#[derive(Debug, Clone, Copy, PartialEq, Eq, Structural)]
pub enum Fault {
    /// Integer arithmetic overflowed.
    Overflow,
    /// An integer was divided by zero.
    DivisionByZero,
    /// A function was called with fewer arguments than parameters.
    MissingArgument,
    /// A function body, or an operand of the plain evaluator, gave no value.
    NoValue,
    /// Calls nested deeper than `MAX_DEPTH`.
    DepthExceeded,
    /// No room was left for another environment.
    OutOfMemory,
}

/// The text that reports a fault.
pub open spec fn fault_message(f: Fault) -> Seq<char> {
    match f {
        Fault::Overflow => "attempt to compute an integer that overflows"@,
        Fault::DivisionByZero => "attempt to divide by zero"@,
        Fault::MissingArgument => "index out of bounds: too few arguments"@,
        Fault::NoValue => "expected Object value, got None"@,
        Fault::DepthExceeded => "calls nested too deeply"@,
        Fault::OutOfMemory => "no room for another environment"@,
    }
}

impl Fault {
    pub fn message(&self) -> (r: &'static str)
        ensures
            r@ == fault_message(*self),
    {
        match self {
            Fault::Overflow => "attempt to compute an integer that overflows",
            Fault::DivisionByZero => "attempt to divide by zero",
            Fault::MissingArgument => "index out of bounds: too few arguments",
            Fault::NoValue => "expected Object value, got None",
            Fault::DepthExceeded => "calls nested too deeply",
            Fault::OutOfMemory => "no room for another environment",
        }
    }
}

pub type Res = Result<Option<ObjectV>, Fault>;

pub open spec fn res_view(r: Result<Option<Object>, Fault>) -> Res {
    match r {
        Ok(Some(o)) => Ok(Some(o@)),
        Ok(None) => Ok(None),
        Err(f) => Err(f),
    }
}

pub open spec fn objs_view(s: Seq<Object>) -> Seq<ObjectV> {
    Seq::new(s.len(), |i: int| s[i]@)
}

pub open spec fn is_error(o: ObjectV) -> bool {
    o is Error
}

/// Whether a condition holds: `false` and null do not, everything else does.
pub open spec fn truthy(o: ObjectV) -> bool {
    match o {
        ObjectV::Boolean(b) => b,
        ObjectV::Null => false,
        _ => true,
    }
}

pub open spec fn ev_bang(o: ObjectV) -> ObjectV {
    match o {
        ObjectV::Boolean(b) => ObjectV::Boolean(!b),
        ObjectV::Integer(i) => ObjectV::Boolean(i == 0),
        ObjectV::Null => ObjectV::Boolean(true),
        _ => ObjectV::Boolean(false),
    }
}

pub open spec fn ev_minus(o: ObjectV) -> Result<ObjectV, Fault> {
    match o {
        ObjectV::Integer(i) => if i == i64::MIN {
            Err(Fault::Overflow)
        } else {
            Ok(ObjectV::Integer((-i) as i64))
        },
        _ => Ok(ObjectV::Error(bad_operator_msg("-"@, kind_name(o), None))),
    }
}

pub open spec fn ev_prefix(op: Seq<char>, o: ObjectV) -> Result<ObjectV, Fault> {
    if op == "!"@ {
        Ok(ev_bang(o))
    } else if op == "-"@ {
        ev_minus(o)
    } else {
        Ok(ObjectV::Error(unknown_operator_msg(op, kind_name(o), None)))
    }
}

/// Integer division that rounds toward zero.
pub open spec fn trunc_div(x: int, d: int) -> int {
    if x == 0 {
        0
    } else if x > 0 && d > 0 {
        x / d
    } else if x < 0 && d < 0 {
        (x * -1) / (d * -1)
    } else if x < 0 {
        ((x * -1) / d) * -1
    } else {
        (x / (d * -1)) * -1
    }
}

pub open spec fn int_result(v: int) -> Result<ObjectV, Fault> {
    if i64::MIN <= v <= i64::MAX {
        Ok(ObjectV::Integer(v as i64))
    } else {
        Err(Fault::Overflow)
    }
}

pub open spec fn ev_int_infix(op: Seq<char>, l: i64, r: i64) -> Result<ObjectV, Fault> {
    if op == "+"@ {
        int_result(l + r)
    } else if op == "-"@ {
        int_result(l - r)
    } else if op == "*"@ {
        int_result(l * r)
    } else if op == "/"@ {
        if r == 0 {
            Err(Fault::DivisionByZero)
        } else {
            int_result(trunc_div(l as int, r as int))
        }
    } else if op == "<"@ {
        Ok(ObjectV::Boolean(l < r))
    } else if op == ">"@ {
        Ok(ObjectV::Boolean(l > r))
    } else if op == "=="@ {
        Ok(ObjectV::Boolean(l == r))
    } else if op == "!="@ {
        Ok(ObjectV::Boolean(l != r))
    } else {
        Ok(ObjectV::Error(unknown_operator_msg(op, "INTEGER"@, Some("INTEGER"@))))
    }
}

pub open spec fn ev_infix(op: Seq<char>, l: ObjectV, r: ObjectV) -> Result<ObjectV, Fault> {
    match (l, r) {
        (ObjectV::Integer(a), ObjectV::Integer(b)) => ev_int_infix(op, a, b),
        (ObjectV::Boolean(a), ObjectV::Boolean(b)) => if op == "=="@ {
            Ok(ObjectV::Boolean(a == b))
        } else if op == "!="@ {
            Ok(ObjectV::Boolean(a != b))
        } else {
            Ok(ObjectV::Error(bad_operator_msg(op, kind_name(l), Some(kind_name(r)))))
        },
        _ => Ok(ObjectV::Error(bad_operator_msg(op, kind_name(l), Some(kind_name(r))))),
    }
}

/// Binds each parameter to the argument at its position, in order.
pub open spec fn bind_params(
    h: Seq<FrameV>,
    env: int,
    params: Seq<IdentifierV>,
    args: Seq<ObjectV>,
) -> Seq<FrameV>
    decreases params.len(),
{
    if params.len() == 0 {
        h
    } else {
        define_in(
            bind_params(h, env, params.subrange(0, params.len() - 1), args),
            env,
            params.last().value,
            args[params.len() - 1],
        )
    }
}

/// The value of an expression in environment `env`, and the environments after it.
#[verifier::opaque]
pub open spec fn ev_expr(fuel: nat, e: ExpressionV, h: Seq<FrameV>, env: nat) -> (
    Res,
    Seq<FrameV>,
)
    decreases fuel, 1nat, e,
{
    match e {
        ExpressionV::IntegerLiteral { token, value } => (Ok(Some(ObjectV::Integer(value))), h),
        ExpressionV::Boolean { token, value } => (Ok(Some(ObjectV::Boolean(value))), h),
        ExpressionV::StringLiteral { token, value } => (Ok(Some(ObjectV::Str(value))), h),
        ExpressionV::Prefix { token, operator, right } => {
            let (r, h1) = ev_expr(fuel, *right, h, env);
            match r {
                Ok(Some(v)) => if is_error(v) {
                    (Ok(Some(v)), h1)
                } else {
                    match ev_prefix(operator, v) {
                        Ok(o) => (Ok(Some(o)), h1),
                        Err(f) => (Err(f), h1),
                    }
                },
                _ => (r, h1),
            }
        },
        ExpressionV::Infix { token, left, operator, right } => {
            let (l, h1) = ev_expr(fuel, *left, h, env);
            match l {
                Ok(Some(lv)) => {
                    let (r, h2) = ev_expr(fuel, *right, h1, env);
                    match r {
                        Ok(Some(rv)) => if is_error(lv) {
                            (Ok(Some(lv)), h2)
                        } else if is_error(rv) {
                            (Ok(Some(rv)), h2)
                        } else {
                            match ev_infix(operator, lv, rv) {
                                Ok(o) => (Ok(Some(o)), h2),
                                Err(f) => (Err(f), h2),
                            }
                        },
                        _ => (r, h2),
                    }
                },
                _ => (l, h1),
            }
        },
        ExpressionV::If { token, condition, consequence, alternative } => {
            let (c, h1) = ev_expr(fuel, *condition, h, env);
            match c {
                Ok(Some(cv)) => if is_error(cv) {
                    (Ok(Some(cv)), h1)
                } else if truthy(cv) {
                    ev_block(fuel, consequence.statements, h1, env, None)
                } else {
                    match alternative {
                        Some(b) => ev_block(fuel, b.statements, h1, env, None),
                        None => (Ok(Some(ObjectV::Null)), h1),
                    }
                },
                _ => (c, h1),
            }
        },
        ExpressionV::Identifier(i) => match lookup(h, env as int, i.value) {
            Some(v) => (Ok(Some(v)), h),
            None => (Ok(Some(ObjectV::Error(undefined_variable_msg(i.value)))), h),
        },
        ExpressionV::FunctionLiteral { token, parameters, body } => (
            Ok(Some(ObjectV::Function { parameters, body, env })),
            h,
        ),
        ExpressionV::Call { token, function, arguments } => {
            let (f, h1) = ev_expr(fuel, *function, h, env);
            match f {
                Ok(Some(fv)) => if is_error(fv) {
                    (Ok(Some(fv)), h1)
                } else {
                    let (a, h2) = ev_args(fuel, arguments, h1, env, Seq::empty());
                    match a {
                        Err(flt) => (Err(flt), h2),
                        Ok(args) => if args.len() == 1 && is_error(args[0]) {
                            (Ok(Some(args[0])), h2)
                        } else {
                            let (r, h3) = ev_call(fuel, fv, args, h2);
                            match r {
                                Ok(o) => (Ok(Some(o)), h3),
                                Err(flt) => (Err(flt), h3),
                            }
                        },
                    }
                },
                _ => (f, h1),
            }
        },
    }
}

/// The values of call arguments, left to right: the values so far in `acc`;
/// an argument without a value is left out, and an error stops the list.
#[verifier::opaque]
pub open spec fn ev_args(
    fuel: nat,
    es: Seq<ExpressionV>,
    h: Seq<FrameV>,
    env: nat,
    acc: Seq<ObjectV>,
) -> (Result<Seq<ObjectV>, Fault>, Seq<FrameV>)
    decreases fuel, 1nat, es,
{
    if es.len() == 0 {
        (Ok(acc), h)
    } else {
        let (r, h1) = ev_expr(fuel, es[0], h, env);
        match r {
            Err(f) => (Err(f), h1),
            Ok(None) => ev_args(fuel, es.subrange(1, es.len() as int), h1, env, acc),
            Ok(Some(v)) => if is_error(v) {
                (Ok(seq![v]), h1)
            } else {
                ev_args(fuel, es.subrange(1, es.len() as int), h1, env, acc.push(v))
            },
        }
    }
}

/// The value of a statement.
#[verifier::opaque]
pub open spec fn ev_stmt(fuel: nat, s: StatementV, h: Seq<FrameV>, env: nat) -> (
    Res,
    Seq<FrameV>,
)
    decreases fuel, 1nat, s,
{
    match s {
        StatementV::Expression { token, expression } => ev_expr(fuel, expression, h, env),
        StatementV::Block(b) => ev_block(fuel, b.statements, h, env, None),
        StatementV::Return { token, return_value } => match return_value {
            Some(e) => {
                let (r, h1) = ev_expr(fuel, e, h, env);
                match r {
                    Ok(Some(v)) => if is_error(v) {
                        (Ok(Some(v)), h1)
                    } else {
                        (Ok(Some(ObjectV::Return(Box::new(v)))), h1)
                    },
                    _ => (r, h1),
                }
            },
            None => (Ok(None), h),
        },
        StatementV::Let { token, name, value } => {
            let (r, h1) = ev_expr(fuel, value, h, env);
            match r {
                Ok(Some(v)) => if is_error(v) {
                    (Ok(Some(v)), h1)
                } else {
                    (Ok(None), define_in(h1, env as int, name.value, v))
                },
                _ => (r, h1),
            }
        },
    }
}

/// The value of the statements of a block: the last statement's, or the first
/// `return` or error met; `acc` is the value so far.
#[verifier::opaque]
pub open spec fn ev_block(
    fuel: nat,
    stmts: Seq<StatementV>,
    h: Seq<FrameV>,
    env: nat,
    acc: Option<ObjectV>,
) -> (Res, Seq<FrameV>)
    decreases fuel, 1nat, stmts,
{
    if stmts.len() == 0 {
        (Ok(acc), h)
    } else {
        let (r, h1) = ev_stmt(fuel, stmts[0], h, env);
        match r {
            Err(f) => (Err(f), h1),
            Ok(res) => match res {
                Some(v) => if v is Return || is_error(v) {
                    (Ok(Some(v)), h1)
                } else {
                    ev_block(fuel, stmts.subrange(1, stmts.len() as int), h1, env, res)
                },
                None => ev_block(fuel, stmts.subrange(1, stmts.len() as int), h1, env, res),
            },
        }
    }
}

/// Calling a value: a closure's body runs in a new environment, enclosed by
/// the closure's, where the parameters are bound to the arguments.
#[verifier::opaque]
pub open spec fn ev_call(fuel: nat, fv: ObjectV, args: Seq<ObjectV>, h: Seq<FrameV>) -> (
    Result<ObjectV, Fault>,
    Seq<FrameV>,
)
    decreases fuel, 0nat, fv,
{
    match fv {
        ObjectV::Function { parameters, body, env: fenv } => if fuel == 0 {
            (Err(Fault::DepthExceeded), h)
        } else if h.len() >= usize::MAX {
            (Err(Fault::OutOfMemory), h)
        } else if args.len() < parameters.len() {
            (Err(Fault::MissingArgument), h)
        } else {
            let n = h.len() as int;
            let h2 = bind_params(enclose(h, Some(fenv)), n, parameters, args);
            let (r, h3) = ev_block((fuel - 1) as nat, body.statements, h2, n as nat, None);
            match r {
                Err(f) => (Err(f), h3),
                Ok(None) => (Err(Fault::NoValue), h3),
                Ok(Some(v)) => match v {
                    ObjectV::Return(inner) => (Ok(*inner), h3),
                    _ => (Ok(v), h3),
                },
            }
        },
        _ => (Ok(ObjectV::Error("not a function: "@ + kind_name(fv))), h),
    }
}

/// The value of a program: its last statement's, the value of the first
/// `return`, or the first error.
#[verifier::opaque]
pub open spec fn ev_program(
    fuel: nat,
    stmts: Seq<StatementV>,
    h: Seq<FrameV>,
    env: nat,
    acc: Option<ObjectV>,
) -> (Res, Seq<FrameV>)
    decreases stmts.len(),
{
    if stmts.len() == 0 {
        (Ok(acc), h)
    } else {
        let (r, h1) = ev_stmt(fuel, stmts[0], h, env);
        match r {
            Err(f) => (Err(f), h1),
            Ok(Some(ObjectV::Return(v))) => (Ok(Some(*v)), h1),
            Ok(Some(ObjectV::Error(m))) => (Ok(Some(ObjectV::Error(m))), h1),
            Ok(res) => ev_program(fuel, stmts.subrange(1, stmts.len() as int), h1, env, res),
        }
    }
}

/// The value of a node.
pub open spec fn ev_node(fuel: nat, n: NodeV, h: Seq<FrameV>, env: nat) -> (Res, Seq<FrameV>) {
    match n {
        NodeV::Program(p) => ev_program(fuel, p.statements, h, env, None),
        NodeV::Statement(s) => ev_stmt(fuel, s, h, env),
        NodeV::Expression(e) => ev_expr(fuel, e, h, env),
    }
}

pub open spec fn opt_view(o: Option<Object>) -> Option<ObjectV> {
    match o {
        Some(v) => Some(v@),
        None => None,
    }
}

pub open spec fn obj_res_view(r: Result<Object, Fault>) -> Result<ObjectV, Fault> {
    match r {
        Ok(o) => Ok(o@),
        Err(f) => Err(f),
    }
}

pub open spec fn objs_res_view(r: Result<Vec<Object>, Fault>) -> Result<Seq<ObjectV>, Fault> {
    match r {
        Ok(v) => Ok(objs_view(v@)),
        Err(f) => Err(f),
    }
}

fn is_error_object(o: &Object) -> (r: bool)
    ensures
        r == is_error(o@),
{
    match o {
        Object::Error(_) => true,
        _ => false,
    }
}

fn is_truthy(c: &Object) -> (r: bool)
    ensures
        r == truthy(c@),
{
    match c {
        Object::Boolean(b) => b.value,
        Object::Null(_) => false,
        _ => true,
    }
}

fn eval_bang_operator_expression(right: Object) -> (r: Object)
    ensures
        r@ == ev_bang(right@),
{
    match right {
        Object::Boolean(b) => Object::Boolean(Boolean { value: !b.value }),
        Object::Integer(i) => Object::Boolean(Boolean { value: i.value == 0 }),
        Object::Null(_) => Object::Boolean(Boolean { value: true }),
        _ => Object::Boolean(Boolean { value: false }),
    }
}

fn eval_minus_prefix_operator_expression(right: Object) -> (r: Result<Object, Fault>)
    ensures
        obj_res_view(r) == ev_minus(right@),
{
    match right {
        Object::Integer(i) => {
            if i.value == i64::MIN {
                Err(Fault::Overflow)
            } else {
                Ok(Object::Integer(Integer { value: -i.value }))
            }
        },
        _ => Ok(Object::Error(Error::bad_operator("-", right.object_type(), None))),
    }
}

fn eval_prefix_expression(operator: &str, right: Object) -> (r: Result<Object, Fault>)
    ensures
        obj_res_view(r) == ev_prefix(operator@, right@),
{
    if str_eq(operator, "!") {
        Ok(eval_bang_operator_expression(right))
    } else if str_eq(operator, "-") {
        eval_minus_prefix_operator_expression(right)
    } else {
        Ok(Object::Error(Error::unknown_operator(operator, right.object_type(), None)))
    }
}

fn int_object(v: Option<i64>) -> (r: Result<Object, Fault>)
    ensures
        obj_res_view(r) == match v {
            Some(x) => Ok(ObjectV::Integer(x)),
            None => Err(Fault::Overflow),
        },
{
    match v {
        Some(x) => Ok(Object::Integer(Integer { value: x })),
        None => Err(Fault::Overflow),
    }
}

fn eval_integer_infix_expression(operator: &str, left: &Integer, right: &Integer) -> (r: Result<
    Object,
    Fault,
>)
    ensures
        obj_res_view(r) == ev_int_infix(operator@, left.value, right.value),
{
    let l = left.value;
    let r = right.value;
    if str_eq(operator, "+") {
        int_object(l.checked_add(r))
    } else if str_eq(operator, "-") {
        int_object(l.checked_sub(r))
    } else if str_eq(operator, "*") {
        int_object(l.checked_mul(r))
    } else if str_eq(operator, "/") {
        if r == 0 {
            Err(Fault::DivisionByZero)
        } else {
            int_object(l.checked_div(r))
        }
    } else if str_eq(operator, "<") {
        Ok(Object::Boolean(Boolean { value: l < r }))
    } else if str_eq(operator, ">") {
        Ok(Object::Boolean(Boolean { value: l > r }))
    } else if str_eq(operator, "==") {
        Ok(Object::Boolean(Boolean { value: l == r }))
    } else if str_eq(operator, "!=") {
        Ok(Object::Boolean(Boolean { value: l != r }))
    } else {
        Ok(
            Object::Error(
                Error::unknown_operator(operator, INTEGER_OBJ, Some(INTEGER_OBJ)),
            ),
        )
    }
}

fn eval_infix_expression(operator: &str, left: Object, right: Object) -> (r: Result<
    Object,
    Fault,
>)
    ensures
        obj_res_view(r) == ev_infix(operator@, left@, right@),
{
    match (&left, &right) {
        (Object::Integer(a), Object::Integer(b)) => eval_integer_infix_expression(operator, a, b),
        (Object::Boolean(a), Object::Boolean(b)) => {
            if str_eq(operator, "==") {
                Ok(Object::Boolean(Boolean { value: a.value == b.value }))
            } else if str_eq(operator, "!=") {
                Ok(Object::Boolean(Boolean { value: a.value != b.value }))
            } else {
                Ok(
                    Object::Error(
                        Error::bad_operator(
                            operator,
                            left.object_type(),
                            Some(right.object_type()),
                        ),
                    ),
                )
            }
        },
        _ => Ok(
            Object::Error(
                Error::bad_operator(operator, left.object_type(), Some(right.object_type())),
            ),
        ),
    }
}

fn eval_identifier(identifier: &ast::Identifier, envs: &EnvStore, env: Env) -> (r: Object)
    ensures
        r@ == match lookup(envs@, env as int, identifier.value@) {
            Some(v) => v,
            None => ObjectV::Error(undefined_variable_msg(identifier.value@)),
        },
{
    match Environment::get(envs, env, identifier.value.as_str()) {
        Some(value) => value,
        None => Object::Error(Error::undefined_variable(identifier.value.as_str())),
    }
}

/// Evaluates an expression.
#[verifier::spinoff_prover]
fn eval_expression(expression: &ast::Expression, envs: &mut EnvStore, env: Env, fuel: u64) -> (r:
    Result<Option<Object>, Fault>)
    requires
        env < old(envs)@.len(),
    ensures
        res_view(r) == ev_expr(fuel as nat, expression@, old(envs)@, env as nat).0,
        final(envs)@ == ev_expr(fuel as nat, expression@, old(envs)@, env as nat).1,
        final(envs)@.len() >= old(envs)@.len(),
    decreases fuel, 1nat, expression,
{
    proof {
        reveal(ev_expr);
    }
    match expression {
        ast::Expression::IntegerLiteral(i) => Ok(Some(Object::Integer(Integer { value: i.value }))),
        ast::Expression::Boolean(b) => Ok(Some(Object::Boolean(Boolean { value: b.value }))),
        ast::Expression::StringLiteral(s) => Ok(
            Some(Object::String_(String_ { value: s.value.clone() })),
        ),
        ast::Expression::Prefix(p) => {
            let r = eval_expression(&p.right, envs, env, fuel);
            match r {
                Ok(Some(right)) => {
                    if is_error_object(&right) {
                        Ok(Some(right))
                    } else {
                        match eval_prefix_expression(p.operator.as_str(), right) {
                            Ok(o) => Ok(Some(o)),
                            Err(f) => Err(f),
                        }
                    }
                },
                Ok(None) => Ok(None),
                Err(f) => Err(f),
            }
        },
        ast::Expression::Infix(i) => {
            let l = eval_expression(&i.left, envs, env, fuel);
            match l {
                Ok(Some(left)) => {
                    let r = eval_expression(&i.right, envs, env, fuel);
                    match r {
                        Ok(Some(right)) => {
                            if is_error_object(&left) {
                                Ok(Some(left))
                            } else if is_error_object(&right) {
                                Ok(Some(right))
                            } else {
                                match eval_infix_expression(i.operator.as_str(), left, right) {
                                    Ok(o) => Ok(Some(o)),
                                    Err(f) => Err(f),
                                }
                            }
                        },
                        Ok(None) => Ok(None),
                        Err(f) => Err(f),
                    }
                },
                Ok(None) => Ok(None),
                Err(f) => Err(f),
            }
        },
        ast::Expression::If(i) => eval_if_expression(i, envs, env, fuel),
        ast::Expression::Identifier(i) => Ok(Some(eval_identifier(i, envs, env))),
        ast::Expression::FunctionLiteral(f) => Ok(
            Some(
                Object::Function(
                    Function {
                        parameters: ast::duplicate_identifiers(&f.parameters),
                        body: f.body.duplicate(),
                        env,
                    },
                ),
            ),
        ),
        ast::Expression::Call(c) => {
            let f = eval_expression(&c.function, envs, env, fuel);
            match f {
                Ok(Some(func)) => {
                    if is_error_object(&func) {
                        Ok(Some(func))
                    } else {
                        let a = eval_expressions(&c.arguments, envs, env, fuel);
                        match a {
                            Err(flt) => Err(flt),
                            Ok(args) => {
                                if args.len() == 1 && is_error_object(&args[0]) {
                                    Ok(Some(args[0].duplicate()))
                                } else {
                                    match apply_function(func, args, envs, fuel) {
                                        Ok(o) => Ok(Some(o)),
                                        Err(flt) => Err(flt),
                                    }
                                }
                            },
                        }
                    }
                },
                Ok(None) => Ok(None),
                Err(flt) => Err(flt),
            }
        },
    }
}

/// Evaluates an `if` expression.
#[verifier::spinoff_prover]
fn eval_if_expression(if_expr: &ast::IfExpression, envs: &mut EnvStore, env: Env, fuel: u64) -> (r:
    Result<Option<Object>, Fault>)
    requires
        env < old(envs)@.len(),
    ensures
        res_view(r) == ev_expr(
            fuel as nat,
            ast::Expression::If(*if_expr)@,
            old(envs)@,
            env as nat,
        ).0,
        final(envs)@ == ev_expr(
            fuel as nat,
            ast::Expression::If(*if_expr)@,
            old(envs)@,
            env as nat,
        ).1,
        final(envs)@.len() >= old(envs)@.len(),
    decreases fuel, 1nat, if_expr,
{
    proof {
        reveal(ev_expr);
        assert(if_expr.consequence@.statements == ast::stmts_view(
            if_expr.consequence.statements@,
        ));
        if if_expr.alternative is Some {
            let b = if_expr.alternative->0;
            assert(b@.statements == ast::stmts_view(b.statements@));
        }
    }
    let c = eval_expression(&if_expr.condition, envs, env, fuel);
    match c {
        Ok(Some(condition)) => {
            if is_error_object(&condition) {
                Ok(Some(condition))
            } else if is_truthy(&condition) {
                eval_block_statement(&if_expr.consequence.statements, envs, env, fuel)
            } else {
                match &if_expr.alternative {
                    Some(alt) => eval_block_statement(&alt.statements, envs, env, fuel),
                    None => Ok(Some(Object::Null(Null {}))),
                }
            }
        },
        Ok(None) => Ok(None),
        Err(f) => Err(f),
    }
}

/// Evaluates call arguments left to right.
#[verifier::spinoff_prover]
fn eval_expressions(exps: &Vec<ast::Expression>, envs: &mut EnvStore, env: Env, fuel: u64) -> (r:
    Result<Vec<Object>, Fault>)
    requires
        env < old(envs)@.len(),
    ensures
        objs_res_view(r) == ev_args(
            fuel as nat,
            ast::exprs_view(exps@),
            old(envs)@,
            env as nat,
            Seq::empty(),
        ).0,
        final(envs)@ == ev_args(
            fuel as nat,
            ast::exprs_view(exps@),
            old(envs)@,
            env as nat,
            Seq::empty(),
        ).1,
        final(envs)@.len() >= old(envs)@.len(),
    decreases fuel, 1nat, exps,
{
    let ghost es = ast::exprs_view(exps@);
    let ghost h0 = envs@;
    proof {
        ast::lemma_exprs_view(exps@);
        assert(es.subrange(0, es.len() as int) =~= es);
        assert(objs_view(Seq::<Object>::empty()) =~= Seq::<ObjectV>::empty());
    }
    let mut out: Vec<Object> = Vec::new();
    let n = exps.len();
    let mut i: usize = 0;
    while i < n
        invariant
            n == exps@.len(),
            es == ast::exprs_view(exps@),
            es.len() == n,
            forall|k: int| 0 <= k < n ==> #[trigger] es[k] == exps@[k]@,
            i <= n,
            env < envs@.len(),
            h0 == old(envs)@,
            envs@.len() >= h0.len(),
            ev_args(fuel as nat, es, h0, env as nat, Seq::empty()) == ev_args(
                fuel as nat,
                es.subrange(i as int, n as int),
                envs@,
                env as nat,
                objs_view(out@),
            ),
        decreases n - i,
    {
        proof {
            reveal(ev_args);
            assert(decreases_to!(exps => exps@[i as int]));
            let rest = es.subrange(i as int, n as int);
            assert(rest[0] == es[i as int]);
            assert(rest.subrange(1, rest.len() as int) =~= es.subrange(i + 1, n as int));
        }
        let r = eval_expression(&exps[i], envs, env, fuel);
        match r {
            Err(f) => {
                return Err(f);
            },
            Ok(None) => {},
            Ok(Some(v)) => {
                if is_error_object(&v) {
                    let ghost vv = v@;
                    let mut single: Vec<Object> = Vec::new();
                    single.push(v);
                    assert(objs_view(single@) =~= seq![vv]);
                    return Ok(single);
                }
                let ghost before = out@;
                out.push(v);
                assert(objs_view(out@) =~= objs_view(before).push(out@[out@.len() - 1]@));
            },
        }
        i = i + 1;
    }
    proof {
        reveal(ev_args);
    }
    Ok(out)
}

/// Evaluates the statements of a block in turn.
#[verifier::spinoff_prover]
fn eval_block_statement(
    statements: &Vec<ast::Statement>,
    envs: &mut EnvStore,
    env: Env,
    fuel: u64,
) -> (r: Result<Option<Object>, Fault>)
    requires
        env < old(envs)@.len(),
    ensures
        res_view(r) == ev_block(
            fuel as nat,
            ast::stmts_view(statements@),
            old(envs)@,
            env as nat,
            None,
        ).0,
        final(envs)@ == ev_block(
            fuel as nat,
            ast::stmts_view(statements@),
            old(envs)@,
            env as nat,
            None,
        ).1,
        final(envs)@.len() >= old(envs)@.len(),
    decreases fuel, 1nat, statements,
{
    let ghost ss = ast::stmts_view(statements@);
    let ghost h0 = envs@;
    proof {
        ast::lemma_stmts_view(statements@);
        assert(ss.subrange(0, ss.len() as int) =~= ss);
    }
    let mut result: Option<Object> = None;
    let n = statements.len();
    let mut i: usize = 0;
    while i < n
        invariant
            n == statements@.len(),
            ss == ast::stmts_view(statements@),
            ss.len() == n,
            forall|k: int| 0 <= k < n ==> #[trigger] ss[k] == statements@[k]@,
            i <= n,
            env < envs@.len(),
            h0 == old(envs)@,
            envs@.len() >= h0.len(),
            ev_block(fuel as nat, ss, h0, env as nat, None) == ev_block(
                fuel as nat,
                ss.subrange(i as int, n as int),
                envs@,
                env as nat,
                opt_view(result),
            ),
        decreases n - i,
    {
        proof {
            reveal(ev_block);
            assert(decreases_to!(statements => statements@[i as int]));
            let rest = ss.subrange(i as int, n as int);
            assert(rest[0] == ss[i as int]);
            assert(rest.subrange(1, rest.len() as int) =~= ss.subrange(i + 1, n as int));
        }
        let r = eval_statement(&statements[i], envs, env, fuel);
        match r {
            Err(f) => {
                return Err(f);
            },
            Ok(res) => {
                match res {
                    Some(v) => {
                        let stop = match &v {
                            Object::Return(_) => true,
                            Object::Error(_) => true,
                            _ => false,
                        };
                        if stop {
                            return Ok(Some(v));
                        }
                        result = Some(v);
                    },
                    None => {
                        result = None;
                    },
                }
            },
        }
        i = i + 1;
    }
    proof {
        reveal(ev_block);
    }
    Ok(result)
}

/// Evaluates a statement.
#[verifier::spinoff_prover]
fn eval_statement(statement: &ast::Statement, envs: &mut EnvStore, env: Env, fuel: u64) -> (r:
    Result<Option<Object>, Fault>)
    requires
        env < old(envs)@.len(),
    ensures
        res_view(r) == ev_stmt(fuel as nat, statement@, old(envs)@, env as nat).0,
        final(envs)@ == ev_stmt(fuel as nat, statement@, old(envs)@, env as nat).1,
        final(envs)@.len() >= old(envs)@.len(),
    decreases fuel, 1nat, statement,
{
    proof {
        reveal(ev_stmt);
    }
    match statement {
        ast::Statement::Expression(e) => eval_expression(&e.expression, envs, env, fuel),
        ast::Statement::Block(b) => eval_block_statement(&b.statements, envs, env, fuel),
        ast::Statement::Return(r) => eval_return_stmt(r, envs, env, fuel),
        ast::Statement::Let(l) => eval_let_statement(l, envs, env, fuel),
    }
}

/// Evaluates a `let` statement: binds the name to the value in `env`.
#[verifier::spinoff_prover]
fn eval_let_statement(stmt: &ast::LetStatement, envs: &mut EnvStore, env: Env, fuel: u64) -> (r:
    Result<Option<Object>, Fault>)
    requires
        env < old(envs)@.len(),
    ensures
        res_view(r) == ev_stmt(
            fuel as nat,
            ast::Statement::Let(*stmt)@,
            old(envs)@,
            env as nat,
        ).0,
        final(envs)@ == ev_stmt(
            fuel as nat,
            ast::Statement::Let(*stmt)@,
            old(envs)@,
            env as nat,
        ).1,
        final(envs)@.len() >= old(envs)@.len(),
    decreases fuel, 1nat, stmt,
{
    proof {
        reveal(ev_stmt);
    }
    let r = eval_expression(&stmt.value, envs, env, fuel);
    match r {
        Ok(Some(v)) => {
            if is_error_object(&v) {
                Ok(Some(v))
            } else {
                envs.define(env, stmt.name.value.as_str(), v);
                Ok(None)
            }
        },
        Ok(None) => Ok(None),
        Err(f) => Err(f),
    }
}

/// Evaluates a `return` statement: wraps the value so that blocks stop at it.
#[verifier::spinoff_prover]
fn eval_return_stmt(stmt: &ast::ReturnStatement, envs: &mut EnvStore, env: Env, fuel: u64) -> (r:
    Result<Option<Object>, Fault>)
    requires
        env < old(envs)@.len(),
    ensures
        res_view(r) == ev_stmt(
            fuel as nat,
            ast::Statement::Return(*stmt)@,
            old(envs)@,
            env as nat,
        ).0,
        final(envs)@ == ev_stmt(
            fuel as nat,
            ast::Statement::Return(*stmt)@,
            old(envs)@,
            env as nat,
        ).1,
        final(envs)@.len() >= old(envs)@.len(),
    decreases fuel, 1nat, stmt,
{
    proof {
        reveal(ev_stmt);
    }
    match &stmt.return_value {
        Some(e) => {
            let r = eval_expression(e, envs, env, fuel);
            match r {
                Ok(Some(v)) => {
                    if is_error_object(&v) {
                        Ok(Some(v))
                    } else {
                        Ok(Some(Object::Return(Return { value: Box::new(v) })))
                    }
                },
                Ok(None) => Ok(None),
                Err(f) => Err(f),
            }
        },
        None => Ok(None),
    }
}

/// Calls a function value on arguments.
#[verifier::spinoff_prover]
fn apply_function(func: Object, args: Vec<Object>, envs: &mut EnvStore, fuel: u64) -> (r: Result<
    Object,
    Fault,
>)
    ensures
        obj_res_view(r) == ev_call(fuel as nat, func@, objs_view(args@), old(envs)@).0,
        final(envs)@ == ev_call(fuel as nat, func@, objs_view(args@), old(envs)@).1,
        final(envs)@.len() >= old(envs)@.len(),
    decreases fuel, 0nat, func,
{
    proof {
        reveal(ev_call);
    }
    let kind = func.object_type();
    match func {
        Object::Function(f) => {
            proof {
                ast::lemma_idents_view(f.parameters@);
                assert(f.body@.statements == ast::stmts_view(f.body.statements@));
            }
            if fuel == 0 {
                return Err(Fault::DepthExceeded);
            }
            if envs.len() == usize::MAX {
                return Err(Fault::OutOfMemory);
            }
            if args.len() < f.parameters.len() {
                return Err(Fault::MissingArgument);
            }
            let ghost h = envs@;
            let ghost ps = ast::idents_view(f.parameters@);
            let ghost av = objs_view(args@);
            let new_env = Environment::new_enclosed(envs, f.env);
            proof {
                ast::lemma_idents_view(f.parameters@);
                assert(ps.subrange(0, 0) =~= Seq::<IdentifierV>::empty());
            }
            let n = f.parameters.len();
            let mut i: usize = 0;
            while i < n
                invariant
                    n == f.parameters@.len(),
                    n <= args@.len(),
                    ps == ast::idents_view(f.parameters@),
                    ps.len() == n,
                    forall|k: int| 0 <= k < n ==> #[trigger] ps[k] == f.parameters@[k]@,
                    av == objs_view(args@),
                    i <= n,
                    new_env == h.len(),
                    envs@ == bind_params(
                        enclose(h, Some(f.env as nat)),
                        new_env as int,
                        ps.subrange(0, i as int),
                        av,
                    ),
                    envs@.len() == h.len() + 1,
                decreases n - i,
            {
                let value = args[i].duplicate();
                envs.define(new_env, f.parameters[i].value.as_str(), value);
                proof {
                    let p2 = ps.subrange(0, i + 1);
                    assert(p2.subrange(0, p2.len() - 1) =~= ps.subrange(0, i as int));
                    assert(p2.last() == ps[i as int]);
                }
                i = i + 1;
            }
            proof {
                assert(ps.subrange(0, n as int) =~= ps);
            }
            let evaluated = eval_block_statement(&f.body.statements, envs, new_env, fuel - 1);
            match evaluated {
                Err(e) => Err(e),
                Ok(None) => Err(Fault::NoValue),
                Ok(Some(v)) => match v {
                    Object::Return(r) => Ok(*r.value),
                    other => Ok(other),
                },
            }
        },
        _ => {
            let mut message = String::from_str("not a function: ");
            message.append(kind);
            Ok(Object::Error(Error::custom(message)))
        },
    }
}

/// Evaluates the statements of a program in turn.
#[verifier::spinoff_prover]
fn eval_program(statements: &Vec<ast::Statement>, envs: &mut EnvStore, env: Env, fuel: u64) -> (r:
    Result<Option<Object>, Fault>)
    requires
        env < old(envs)@.len(),
    ensures
        res_view(r) == ev_program(
            fuel as nat,
            ast::stmts_view(statements@),
            old(envs)@,
            env as nat,
            None,
        ).0,
        final(envs)@ == ev_program(
            fuel as nat,
            ast::stmts_view(statements@),
            old(envs)@,
            env as nat,
            None,
        ).1,
{
    let ghost ss = ast::stmts_view(statements@);
    let ghost h0 = envs@;
    proof {
        ast::lemma_stmts_view(statements@);
        assert(ss.subrange(0, ss.len() as int) =~= ss);
    }
    let mut result: Option<Object> = None;
    let n = statements.len();
    let mut i: usize = 0;
    while i < n
        invariant
            n == statements@.len(),
            ss == ast::stmts_view(statements@),
            ss.len() == n,
            forall|k: int| 0 <= k < n ==> #[trigger] ss[k] == statements@[k]@,
            i <= n,
            env < envs@.len(),
            h0 == old(envs)@,
            ev_program(fuel as nat, ss, h0, env as nat, None) == ev_program(
                fuel as nat,
                ss.subrange(i as int, n as int),
                envs@,
                env as nat,
                opt_view(result),
            ),
        decreases n - i,
    {
        proof {
            reveal(ev_program);
            let rest = ss.subrange(i as int, n as int);
            assert(rest[0] == ss[i as int]);
            assert(rest.subrange(1, rest.len() as int) =~= ss.subrange(i + 1, n as int));
        }
        let r = eval_statement(&statements[i], envs, env, fuel);
        match r {
            Err(f) => {
                return Err(f);
            },
            Ok(Some(Object::Return(rv))) => {
                return Ok(Some(*rv.value));
            },
            Ok(Some(Object::Error(e))) => {
                return Ok(Some(Object::Error(e)));
            },
            Ok(res) => {
                result = res;
            },
        }
        i = i + 1;
    }
    proof {
        reveal(ev_program);
    }
    Ok(result)
}

/// Evaluates a node in environment `env`, stopping with the reason where the
/// language gives no value (see `Fault`).
pub fn try_eval(node: &ast::Node, envs: &mut EnvStore, env: Env) -> (r: Result<
    Option<Object>,
    Fault,
>)
    requires
        env < old(envs)@.len(),
    ensures
        res_view(r) == ev_node(MAX_DEPTH as nat, node@, old(envs)@, env as nat).0,
        final(envs)@ == ev_node(MAX_DEPTH as nat, node@, old(envs)@, env as nat).1,
{
    match node {
        ast::Node::Program(p) => eval_program(&p.statements, envs, env, MAX_DEPTH),
        ast::Node::Statement(s) => eval_statement(s, envs, env, MAX_DEPTH),
        ast::Node::Expression(e) => eval_expression(e, envs, env, MAX_DEPTH),
    }
}

/// Evaluates a node in environment `env`: the value of a program, statement
/// or expression, or none (a `let`, or a `return` without a value).
pub fn eval(node: ast::Node, envs: &mut EnvStore, env: Env) -> (r: Option<Object>)
    requires
        env < old(envs)@.len(),
        ev_node(MAX_DEPTH as nat, node@, old(envs)@, env as nat).0 is Ok,
    ensures
        ev_node(MAX_DEPTH as nat, node@, old(envs)@, env as nat).0 == Res::Ok(opt_view(r)),
        final(envs)@ == ev_node(MAX_DEPTH as nat, node@, old(envs)@, env as nat).1,
{
    match try_eval(&node, envs, env) {
        Ok(r) => r,
        Err(_) => None,
    }
}

// --- Laws ---

proof fn lemma_bind_params_len(h: Seq<FrameV>, env: int, params: Seq<IdentifierV>, args: Seq<ObjectV>)
    requires
        0 <= env < h.len(),
    ensures
        bind_params(h, env, params, args).len() == h.len(),
    decreases params.len(),
{
    if params.len() > 0 {
        lemma_bind_params_len(h, env, params.subrange(0, params.len() - 1), args);
    }
}

/// Evaluating an expression never removes an environment.
pub proof fn lemma_expr_keeps_envs(fuel: nat, e: ExpressionV, h: Seq<FrameV>, env: nat)
    requires
        env < h.len(),
    ensures
        ev_expr(fuel, e, h, env).1.len() >= h.len(),
    decreases fuel, 1nat, e,
{
    reveal(ev_expr);
    reveal(ev_args);
    reveal(ev_stmt);
    reveal(ev_block);
    reveal(ev_expr);
    reveal(ev_args);
    reveal(ev_stmt);
    reveal(ev_block);
    reveal(ev_call);
    match e {
        ExpressionV::Prefix { right, .. } => {
            lemma_expr_keeps_envs(fuel, *right, h, env);
        },
        ExpressionV::Infix { left, right, .. } => {
            lemma_expr_keeps_envs(fuel, *left, h, env);
            let h1 = ev_expr(fuel, *left, h, env).1;
            lemma_expr_keeps_envs(fuel, *right, h1, env);
        },
        ExpressionV::If { condition, consequence, alternative, .. } => {
            lemma_expr_keeps_envs(fuel, *condition, h, env);
            let h1 = ev_expr(fuel, *condition, h, env).1;
            lemma_block_keeps_envs(fuel, consequence.statements, h1, env, None);
            match alternative {
                Some(b) => {
                    lemma_block_keeps_envs(fuel, b.statements, h1, env, None);
                },
                None => {},
            }
        },
        ExpressionV::Call { function, arguments, .. } => {
            lemma_expr_keeps_envs(fuel, *function, h, env);
            let (f, h1) = ev_expr(fuel, *function, h, env);
            lemma_args_keeps_envs(fuel, arguments, h1, env, Seq::empty());
            let (a, h2) = ev_args(fuel, arguments, h1, env, Seq::empty());
            match (f, a) {
                (Ok(Some(fv)), Ok(args)) => {
                    lemma_call_keeps_envs(fuel, fv, args, h2);
                },
                _ => {},
            }
        },
        _ => {},
    }
}

/// Evaluating call arguments never removes an environment.
pub proof fn lemma_args_keeps_envs(
    fuel: nat,
    es: Seq<ExpressionV>,
    h: Seq<FrameV>,
    env: nat,
    acc: Seq<ObjectV>,
)
    requires
        env < h.len(),
    ensures
        ev_args(fuel, es, h, env, acc).1.len() >= h.len(),
    decreases fuel, 1nat, es,
{
    reveal(ev_expr);
    reveal(ev_args);
    reveal(ev_stmt);
    reveal(ev_block);
    reveal(ev_expr);
    reveal(ev_args);
    reveal(ev_stmt);
    reveal(ev_block);
    reveal(ev_call);
    if es.len() > 0 {
        lemma_expr_keeps_envs(fuel, es[0], h, env);
        let (r, h1) = ev_expr(fuel, es[0], h, env);
        let rest = es.subrange(1, es.len() as int);
        match r {
            Ok(None) => {
                lemma_args_keeps_envs(fuel, rest, h1, env, acc);
            },
            Ok(Some(v)) => {
                lemma_args_keeps_envs(fuel, rest, h1, env, acc.push(v));
            },
            _ => {},
        }
    }
}

/// Evaluating a statement never removes an environment.
pub proof fn lemma_stmt_keeps_envs(fuel: nat, s: StatementV, h: Seq<FrameV>, env: nat)
    requires
        env < h.len(),
    ensures
        ev_stmt(fuel, s, h, env).1.len() >= h.len(),
    decreases fuel, 1nat, s,
{
    reveal(ev_expr);
    reveal(ev_args);
    reveal(ev_stmt);
    reveal(ev_block);
    reveal(ev_expr);
    reveal(ev_args);
    reveal(ev_stmt);
    reveal(ev_block);
    reveal(ev_call);
    match s {
        StatementV::Expression { expression, .. } => {
            lemma_expr_keeps_envs(fuel, expression, h, env);
        },
        StatementV::Block(b) => {
            lemma_block_keeps_envs(fuel, b.statements, h, env, None);
        },
        StatementV::Return { return_value, .. } => {
            match return_value {
                Some(e) => {
                    lemma_expr_keeps_envs(fuel, e, h, env);
                },
                None => {},
            }
        },
        StatementV::Let { value, .. } => {
            lemma_expr_keeps_envs(fuel, value, h, env);
        },
    }
}

/// Evaluating a block never removes an environment.
pub proof fn lemma_block_keeps_envs(
    fuel: nat,
    stmts: Seq<StatementV>,
    h: Seq<FrameV>,
    env: nat,
    acc: Option<ObjectV>,
)
    requires
        env < h.len(),
    ensures
        ev_block(fuel, stmts, h, env, acc).1.len() >= h.len(),
    decreases fuel, 1nat, stmts,
{
    reveal(ev_expr);
    reveal(ev_args);
    reveal(ev_stmt);
    reveal(ev_block);
    reveal(ev_expr);
    reveal(ev_args);
    reveal(ev_stmt);
    reveal(ev_block);
    reveal(ev_call);
    if stmts.len() > 0 {
        lemma_stmt_keeps_envs(fuel, stmts[0], h, env);
        let (r, h1) = ev_stmt(fuel, stmts[0], h, env);
        match r {
            Ok(res) => {
                lemma_block_keeps_envs(fuel, stmts.subrange(1, stmts.len() as int), h1, env, res);
            },
            _ => {},
        }
    }
}

/// Calling a value never removes an environment.
pub proof fn lemma_call_keeps_envs(fuel: nat, fv: ObjectV, args: Seq<ObjectV>, h: Seq<FrameV>)
    ensures
        ev_call(fuel, fv, args, h).1.len() >= h.len(),
    decreases fuel, 0nat, fv,
{
    reveal(ev_expr);
    reveal(ev_args);
    reveal(ev_stmt);
    reveal(ev_block);
    reveal(ev_call);
    match fv {
        ObjectV::Function { parameters, body, env: fenv } => {
            if fuel > 0 && h.len() < usize::MAX && args.len() >= parameters.len() {
                let n = h.len() as int;
                let h1 = enclose(h, Some(fenv));
                lemma_bind_params_len(h1, n, parameters, args);
                let h2 = bind_params(h1, n, parameters, args);
                lemma_block_keeps_envs((fuel - 1) as nat, body.statements, h2, n as nat, None);
            }
        },
        _ => {},
    }
}

/// Binding the parameters of a call: each parameter that no later one
/// repeats is bound, in the call's environment, to its argument.
pub proof fn lemma_call_binds_params(
    h: Seq<FrameV>,
    env: int,
    params: Seq<IdentifierV>,
    args: Seq<ObjectV>,
    i: int,
)
    requires
        0 <= env < h.len(),
        0 <= i < params.len() <= args.len(),
        forall|j: int| i < j < params.len() ==> (#[trigger] params[j]).value != params[i].value,
    ensures
        lookup(bind_params(h, env, params, args), env, params[i].value) == Some(args[i]),
    decreases params.len(),
{
    let last = params.len() - 1;
    let init = params.subrange(0, last);
    lemma_bind_params_len(h, env, init, args);
    if i == last {
        crate::environment::lemma_get_after_define(
            bind_params(h, env, init, args),
            env,
            params[last].value,
            args[last],
        );
    } else {
        assert(params[last].value != params[i].value);
        assert forall|j: int| i < j < init.len() implies (#[trigger] init[j]).value
            != init[i].value by {
            assert(init[j] == params[j]);
        }
        lemma_call_binds_params(h, env, init, args, i);
        crate::environment::lemma_define_keeps_other_names(
            bind_params(h, env, init, args),
            env,
            params[last].value,
            args[last],
            env,
            params[i].value,
        );
    }
}

/// A `return` ends a program: what follows it is not run, and the program's
/// value is the returned value.
pub proof fn lemma_return_ends_program(
    fuel: nat,
    token: TokenV,
    e: ExpressionV,
    rest: Seq<StatementV>,
    h: Seq<FrameV>,
    env: nat,
    acc: Option<ObjectV>,
    v: ObjectV,
)
    requires
        ev_expr(fuel, e, h, env).0 == Res::Ok(Some(v)),
        !is_error(v),
    ensures
        ev_program(
            fuel,
            seq![StatementV::Return { token, return_value: Some(e) }] + rest,
            h,
            env,
            acc,
        ) == (Res::Ok(Some(v)), ev_expr(fuel, e, h, env).1),
{
    reveal(ev_program);
    reveal(ev_expr);
    reveal(ev_args);
    reveal(ev_stmt);
    reveal(ev_block);
    reveal(ev_call);
    let stmts = seq![StatementV::Return { token, return_value: Some(e) }] + rest;
    assert(stmts[0] == StatementV::Return { token, return_value: Some(e) });
}

/// An error ends a program: what follows the statement that gave it is not
/// run, and the program's value is the error.
pub proof fn lemma_error_ends_program(
    fuel: nat,
    s: StatementV,
    rest: Seq<StatementV>,
    h: Seq<FrameV>,
    env: nat,
    acc: Option<ObjectV>,
    message: Seq<char>,
)
    requires
        ev_stmt(fuel, s, h, env).0 == Res::Ok(Some(ObjectV::Error(message))),
    ensures
        ev_program(fuel, seq![s] + rest, h, env, acc) == (
            Res::Ok(Some(ObjectV::Error(message))),
            ev_stmt(fuel, s, h, env).1,
        ),
{
    reveal(ev_program);
    assert((seq![s] + rest)[0] == s);
}

/// A name bound by `let` reads back as its value: the program
/// `let name = e; name` has the value of `e`.
pub proof fn lemma_let_then_read(
    fuel: nat,
    let_token: TokenV,
    name: IdentifierV,
    e: ExpressionV,
    token: TokenV,
    h: Seq<FrameV>,
    env: nat,
    v: ObjectV,
)
    requires
        env < h.len(),
        ev_expr(fuel, e, h, env).0 == Res::Ok(Some(v)),
        !is_error(v),
        !(v is Return),
    ensures
        ev_program(
            fuel,
            seq![
                StatementV::Let { token: let_token, name, value: e },
                StatementV::Expression { token, expression: ExpressionV::Identifier(name) },
            ],
            h,
            env,
            None,
        ).0 == Res::Ok(Some(v)),
{
    reveal_with_fuel(ev_program, 3);
    reveal(ev_expr);
    reveal(ev_args);
    reveal(ev_stmt);
    reveal(ev_block);
    reveal(ev_call);
    let stmts = seq![
        StatementV::Let { token: let_token, name, value: e },
        StatementV::Expression { token, expression: ExpressionV::Identifier(name) },
    ];
    let h1 = ev_expr(fuel, e, h, env).1;
    lemma_expr_keeps_envs(fuel, e, h, env);
    let h2 = define_in(h1, env as int, name.value, v);
    crate::environment::lemma_get_after_define(h1, env as int, name.value, v);
    let rest = stmts.subrange(1, 2);
    assert(rest[0] == stmts[1]);
    assert(rest.subrange(1, 1).len() == 0);
    assert(ev_stmt(fuel, stmts[0], h, env) == (Res::Ok(None), h2));
    assert(ev_stmt(fuel, rest[0], h2, env).0 == Res::Ok(Some(v)));
}

proof fn lemma_div_pos(a: int, b: int)
    requires
        a >= 0,
        b > 0,
    ensures
        0 <= a - (a / b) * b < b,
{
    vstd::arithmetic::div_mod::lemma_fundamental_div_mod(a, b);
    vstd::arithmetic::div_mod::lemma_mod_pos_bound(a, b);
    assert((a / b) * b == b * (a / b)) by (nonlinear_arith);
}

/// Division rounds toward zero: the remainder is smaller than the divisor
/// and is zero or has the sign of the dividend.
pub proof fn lemma_division_rounds_toward_zero(x: int, d: int)
    requires
        d != 0,
    ensures
        ({
            let r = x - trunc_div(x, d) * d;
            &&& -(if d > 0 { d } else { -d }) < r < (if d > 0 { d } else { -d })
            &&& (r == 0 || (r > 0) == (x > 0))
        }),
{
    let q = trunc_div(x, d);
    let a = if x >= 0 { x } else { -x };
    let b = if d > 0 { d } else { -d };
    lemma_div_pos(a, b);
    let q1 = a / b;
    if x == 0 {
    } else if x > 0 && d > 0 {
    } else if x < 0 && d < 0 {
        assert(q * d == -(q1 * b)) by (nonlinear_arith)
            requires
                q == q1,
                d == -b,
        ;
    } else if x < 0 {
        assert(q * d == -(q1 * b)) by (nonlinear_arith)
            requires
                q == -q1,
                d == b,
        ;
    } else {
        assert(q * d == q1 * b) by (nonlinear_arith)
            requires
                q == -q1,
                d == -b,
        ;
    }
}

/// Binding the parameters of a call changes no binding that the environments
/// already there show: parameters live only in the call's new environment.
pub proof fn lemma_call_keeps_outer_bindings(
    h: Seq<FrameV>,
    outer: Option<nat>,
    params: Seq<IdentifierV>,
    args: Seq<ObjectV>,
    from: int,
    name: Seq<char>,
)
    requires
        0 <= from < h.len(),
    ensures
        lookup(bind_params(enclose(h, outer), h.len() as int, params, args), from, name)
            == lookup(h, from, name),
    decreases params.len(),
{
    let h1 = enclose(h, outer);
    if params.len() == 0 {
        crate::environment::lemma_enclose_keeps_lookups(h, outer, from, name);
    } else {
        let init = params.subrange(0, params.len() - 1);
        lemma_call_keeps_outer_bindings(h, outer, init, args, from, name);
        lemma_bind_params_len(h1, h.len() as int, init, args);
        crate::environment::lemma_define_in_other_frame(
            bind_params(h1, h.len() as int, init, args),
            h.len() as int,
            params.last().value,
            args[params.len() - 1],
            from,
        );
        if params.last().value != name {
            crate::environment::lemma_define_keeps_other_names(
                bind_params(h1, h.len() as int, init, args),
                h.len() as int,
                params.last().value,
                args[params.len() - 1],
                from,
                name,
            );
        }
    }
}

pub proof fn lemma_operators_differ()
    ensures
        "=="@ != "+"@,
        "=="@ != "-"@,
        "=="@ != "*"@,
        "=="@ != "/"@,
        "=="@ != "<"@,
        "=="@ != ">"@,
        "!="@ != "+"@,
        "!="@ != "-"@,
        "!="@ != "*"@,
        "!="@ != "/"@,
        "!="@ != "<"@,
        "!="@ != ">"@,
        "!="@ != "=="@,
        "<"@ != "+"@,
        "<"@ != "-"@,
        "<"@ != "*"@,
        "<"@ != "/"@,
        ">"@ != "+"@,
        ">"@ != "-"@,
        ">"@ != "*"@,
        ">"@ != "/"@,
        ">"@ != "<"@,
        "-"@ != "+"@,
        "*"@ != "+"@,
        "*"@ != "-"@,
        "/"@ != "+"@,
        "/"@ != "-"@,
        "/"@ != "*"@,
{
    reveal_strlit("==");
    reveal_strlit("!=");
    reveal_strlit("+");
    reveal_strlit("-");
    reveal_strlit("*");
    reveal_strlit("/");
    reveal_strlit("<");
    reveal_strlit(">");
    assert("=="@.len() != "+"@.len());
    assert("=="@.len() != "<"@.len());
    assert("!="@.len() != "+"@.len());
    assert("!="@.len() != "<"@.len());
    assert("!="@[0] != "=="@[0]);
    assert("<"@[0] != "+"@[0]);
    assert("<"@[0] != "-"@[0]);
    assert("<"@[0] != "*"@[0]);
    assert("<"@[0] != "/"@[0]);
    assert(">"@[0] != "+"@[0]);
    assert(">"@[0] != "-"@[0]);
    assert(">"@[0] != "*"@[0]);
    assert(">"@[0] != "/"@[0]);
    assert(">"@[0] != "<"@[0]);
    assert("-"@[0] != "+"@[0]);
    assert("*"@[0] != "+"@[0]);
    assert("*"@[0] != "-"@[0]);
    assert("/"@[0] != "+"@[0]);
    assert("/"@[0] != "-"@[0]);
    assert("/"@[0] != "*"@[0]);
}

/// Integer operators mean what they say: `+`, `-` and `*` give the exact
/// result when it fits in an `i64` and stop the run otherwise; `==` holds
/// exactly when the integers are equal and `!=` exactly when they differ,
/// the one the negation of the other; `<` and `>` order them, each the
/// other with the operands swapped, and exactly one of `<`, `==`, `>` holds.
pub proof fn lemma_integer_operators(l: i64, r: i64)
    ensures
        ev_int_infix("+"@, l, r) == (if i64::MIN <= l + r <= i64::MAX {
            Ok(ObjectV::Integer((l + r) as i64))
        } else {
            Err(Fault::Overflow)
        }),
        ev_int_infix("-"@, l, r) == (if i64::MIN <= l - r <= i64::MAX {
            Ok(ObjectV::Integer((l - r) as i64))
        } else {
            Err(Fault::Overflow)
        }),
        ev_int_infix("*"@, l, r) == (if i64::MIN <= l * r <= i64::MAX {
            Ok(ObjectV::Integer((l * r) as i64))
        } else {
            Err(Fault::Overflow)
        }),
        r == 0 ==> ev_int_infix("/"@, l, r) == Err::<ObjectV, Fault>(Fault::DivisionByZero),
        ev_int_infix("+"@, l, r) == ev_int_infix("+"@, r, l),
        ev_int_infix("*"@, l, r) == ev_int_infix("*"@, r, l),
        ev_int_infix("=="@, l, r) == Ok::<ObjectV, Fault>(ObjectV::Boolean(l == r)),
        ev_int_infix("!="@, l, r) == Ok::<ObjectV, Fault>(ObjectV::Boolean(l != r)),
        ev_int_infix("<"@, l, r) == Ok::<ObjectV, Fault>(ObjectV::Boolean(l < r)),
        ev_int_infix(">"@, l, r) == Ok::<ObjectV, Fault>(ObjectV::Boolean(l > r)),
        ev_int_infix("!="@, l, r) == Ok::<ObjectV, Fault>(
            ObjectV::Boolean(!(ev_int_infix("=="@, l, r)->Ok_0->Boolean_0)),
        ),
        ev_int_infix("<"@, l, r) == ev_int_infix(">"@, r, l),
        ev_int_infix("=="@, l, r) == ev_int_infix("=="@, r, l),
        ev_int_infix("<"@, l, r)->Ok_0->Boolean_0 || ev_int_infix("=="@, l, r)->Ok_0->Boolean_0
            || ev_int_infix(">"@, l, r)->Ok_0->Boolean_0,
        !(ev_int_infix("<"@, l, r)->Ok_0->Boolean_0 && ev_int_infix(">"@, l, r)->Ok_0->Boolean_0),
{
    lemma_operators_differ();
    assert(l * r == r * l) by (nonlinear_arith);
}

/// On booleans `==` holds exactly when they are equal and `!=` exactly when
/// they differ; other operators, and operands of different kinds, give an
/// error object.
pub proof fn lemma_boolean_operators(a: bool, b: bool)
    ensures
        ev_infix("=="@, ObjectV::Boolean(a), ObjectV::Boolean(b)) == Ok::<ObjectV, Fault>(
            ObjectV::Boolean(a == b),
        ),
        ev_infix("!="@, ObjectV::Boolean(a), ObjectV::Boolean(b)) == Ok::<ObjectV, Fault>(
            ObjectV::Boolean(a != b),
        ),
        ev_infix("+"@, ObjectV::Boolean(a), ObjectV::Boolean(b)) is Ok,
        ev_infix("+"@, ObjectV::Boolean(a), ObjectV::Boolean(b))->Ok_0 is Error,
{
    lemma_operators_differ();
}

/// Calling a function whose body is `return e` gives the value of `e`
/// itself, never the returned wrapper: the same as calling a function whose
/// body is just `e`.
pub proof fn lemma_call_of_return_body(
    fuel: nat,
    parameters: Seq<IdentifierV>,
    block_token: TokenV,
    return_token: TokenV,
    expression_token: TokenV,
    e: ExpressionV,
    fenv: nat,
    args: Seq<ObjectV>,
    h: Seq<FrameV>,
    v: ObjectV,
)
    requires
        fuel > 0,
        h.len() < usize::MAX,
        args.len() >= parameters.len(),
        ev_expr(
            (fuel - 1) as nat,
            e,
            bind_params(enclose(h, Some(fenv)), h.len() as int, parameters, args),
            h.len() as nat,
        ).0 == Res::Ok(Some(v)),
        !(v is Return),
    ensures
        ev_call(
            fuel,
            ObjectV::Function {
                parameters,
                body: BlockStatementV {
                    token: block_token,
                    statements: seq![
                        StatementV::Return { token: return_token, return_value: Some(e) },
                    ],
                },
                env: fenv,
            },
            args,
            h,
        ).0 == Ok::<ObjectV, Fault>(v),
        ev_call(
            fuel,
            ObjectV::Function {
                parameters,
                body: BlockStatementV {
                    token: block_token,
                    statements: seq![StatementV::Expression { token: expression_token, expression: e }],
                },
                env: fenv,
            },
            args,
            h,
        ).0 == Ok::<ObjectV, Fault>(v),
{
    reveal(ev_call);
    reveal_with_fuel(ev_block, 2);
    reveal(ev_stmt);
    reveal(ev_expr);
    reveal(ev_args);
    let s1 = seq![StatementV::Return { token: return_token, return_value: Some(e) }];
    let s2 = seq![StatementV::Expression { token: expression_token, expression: e }];
    assert(s1.subrange(1, 1) =~= Seq::<StatementV>::empty());
    assert(s2.subrange(1, 1) =~= Seq::<StatementV>::empty());
}

/// `!` negates a boolean, gives `true` on null and on zero only, and
/// applying it twice to a boolean gives the boolean back; `-` negates an
/// integer, and applying it twice gives the integer back.
pub proof fn lemma_prefix_operators(o: ObjectV)
    ensures
        ev_prefix("!"@, o) is Ok,
        ev_prefix("!"@, o)->Ok_0 is Boolean,
        o is Boolean ==> ev_prefix("!"@, o) == Ok::<ObjectV, Fault>(ObjectV::Boolean(!o->Boolean_0)),
        o is Boolean ==> ev_prefix("!"@, ev_prefix("!"@, o)->Ok_0) == Ok::<ObjectV, Fault>(o),
        o is Null ==> ev_prefix("!"@, o) == Ok::<ObjectV, Fault>(ObjectV::Boolean(true)),
        o is Integer ==> ev_prefix("!"@, o) == Ok::<ObjectV, Fault>(
            ObjectV::Boolean(o->Integer_0 == 0),
        ),
        (o is Boolean || o is Null) ==> ev_prefix("!"@, o) == Ok::<ObjectV, Fault>(
            ObjectV::Boolean(!truthy(o)),
        ),
        o is Integer && o->Integer_0 != i64::MIN ==> ev_prefix("-"@, o) == Ok::<ObjectV, Fault>(
            ObjectV::Integer((-o->Integer_0) as i64),
        ),
        o is Integer && o->Integer_0 != i64::MIN ==> ev_prefix("-"@, ev_prefix("-"@, o)->Ok_0)
            == Ok::<ObjectV, Fault>(o),
        !(o is Integer) ==> ev_prefix("-"@, o)->Ok_0 is Error,
{
    reveal_strlit("!");
    reveal_strlit("-");
    assert("-"@[0] != "!"@[0]);
}

/// Integer division by a non-zero divisor rounds toward zero: when the
/// quotient fits, the remainder is smaller than the divisor and is zero or
/// has the sign of the dividend.
pub proof fn lemma_integer_division(l: i64, r: i64)
    requires
        r != 0,
    ensures
        ev_int_infix("/"@, l, r) matches Ok(ObjectV::Integer(q)) ==> ({
            let rem = l - q * r;
            &&& -(if r > 0 { r as int } else { -r }) < rem < (if r > 0 { r as int } else { -r })
            &&& (rem == 0 || (rem > 0) == (l > 0))
        }),
        ev_int_infix("/"@, l, r) is Ok || (l == i64::MIN && r == -1),
{
    lemma_operators_differ();
    lemma_division_rounds_toward_zero(l as int, r as int);
    let q = trunc_div(l as int, r as int);
    if !(l == i64::MIN && r == -1) {
        let a = if l >= 0 { l as int } else { -l };
        let b = if r > 0 { r as int } else { -r };
        lemma_div_pos(a, b);
        assert(a / b <= a) by {
            vstd::arithmetic::div_mod::lemma_div_is_ordered_by_denominator(a, 1, b);
        }
        if b >= 2 {
            vstd::arithmetic::div_mod::lemma_div_is_ordered_by_denominator(a, 2, b);
        }
        assert(a / b >= 0) by {
            vstd::arithmetic::div_mod::lemma_div_pos_is_pos(a, b);
        }
        assert(q == a / b || q == -(a / b));
        assert(i64::MIN <= q <= i64::MAX);
    }
}

/// A conditional runs its consequence exactly when the condition holds (it
/// is neither `false` nor null), and its alternative, or gives null,
/// otherwise; an error in the condition is the value.
pub proof fn lemma_if_chooses(
    fuel: nat,
    token: TokenV,
    condition: ExpressionV,
    consequence: BlockStatementV,
    alternative: Option<BlockStatementV>,
    h: Seq<FrameV>,
    env: nat,
    c: ObjectV,
)
    requires
        ev_expr(fuel, condition, h, env).0 == Res::Ok(Some(c)),
    ensures
        ({
            let e = ExpressionV::If {
                token,
                condition: Box::new(condition),
                consequence,
                alternative,
            };
            let h1 = ev_expr(fuel, condition, h, env).1;
            &&& is_error(c) ==> ev_expr(fuel, e, h, env) == (Res::Ok(Some(c)), h1)
            &&& !is_error(c) && truthy(c) ==> ev_expr(fuel, e, h, env) == ev_block(
                fuel,
                consequence.statements,
                h1,
                env,
                None,
            )
            &&& !is_error(c) && !truthy(c) && alternative is Some ==> ev_expr(fuel, e, h, env)
                == ev_block(fuel, alternative->0.statements, h1, env, None)
            &&& !is_error(c) && !truthy(c) && alternative is None ==> ev_expr(fuel, e, h, env)
                == (Res::Ok(Some(ObjectV::Null)), h1)
        }),
{
    reveal(ev_expr);
    reveal(ev_args);
    reveal(ev_stmt);
    reveal(ev_block);
    reveal(ev_call);
}

/// Only `false` and null fail a condition; every other value, zero and the
/// empty string included, holds.
pub proof fn lemma_truthiness(o: ObjectV)
    ensures
        !truthy(o) <==> (o == ObjectV::Boolean(false) || o == ObjectV::Null),
        truthy(ObjectV::Integer(0)),
        truthy(ObjectV::Str(Seq::empty())),
{
}

/// A function value remembers the environment it was made in, and a call
/// of it sees the bindings of that environment: a function without
/// parameters whose body is a name gives that name's value where the
/// function was made.
pub proof fn lemma_closure_sees_its_environment(
    fuel: nat,
    token: TokenV,
    body: BlockStatementV,
    h: Seq<FrameV>,
    env: nat,
)
    ensures
        ev_expr(
            fuel,
            ExpressionV::FunctionLiteral { token, parameters: Seq::empty(), body },
            h,
            env,
        ) == (Res::Ok(Some(ObjectV::Function { parameters: Seq::empty(), body, env })), h),
{
    reveal(ev_expr);
    reveal(ev_args);
    reveal(ev_stmt);
    reveal(ev_block);
    reveal(ev_call);
}

/// Calling a function without parameters whose body is the name `x` gives
/// the value that `x` has in the function's environment.
pub proof fn lemma_call_reads_closure_environment(
    fuel: nat,
    block_token: TokenV,
    token: TokenV,
    x: IdentifierV,
    fenv: nat,
    args: Seq<ObjectV>,
    h: Seq<FrameV>,
    v: ObjectV,
)
    requires
        fuel > 0,
        h.len() < usize::MAX,
        fenv < h.len(),
        lookup(h, fenv as int, x.value) == Some(v),
        !(v is Return),
    ensures
        ev_call(
            fuel,
            ObjectV::Function {
                parameters: Seq::empty(),
                body: BlockStatementV {
                    token: block_token,
                    statements: seq![
                        StatementV::Expression { token, expression: ExpressionV::Identifier(x) },
                    ],
                },
                env: fenv,
            },
            args,
            h,
        ).0 == Ok::<ObjectV, Fault>(v),
{
    reveal(ev_call);
    reveal_with_fuel(ev_block, 2);
    reveal(ev_stmt);
    reveal(ev_expr);
    reveal(ev_args);
    crate::environment::lemma_enclosed_sees_outer(h, fenv, x.value);
    let h1 = enclose(h, Some(fenv));
    assert(bind_params(h1, h.len() as int, Seq::empty(), args) == h1);
    let ss = seq![StatementV::Expression { token, expression: ExpressionV::Identifier(x) }];
    assert(ss.subrange(1, 1) =~= Seq::<StatementV>::empty());
}

/// A `return` ends a block: the statements after it are not run, and the
/// block's value is the returned value, still wrapped so that enclosing
/// blocks stop too.
pub proof fn lemma_return_ends_block(
    fuel: nat,
    token: TokenV,
    e: ExpressionV,
    rest: Seq<StatementV>,
    h: Seq<FrameV>,
    env: nat,
    acc: Option<ObjectV>,
    v: ObjectV,
)
    requires
        ev_expr(fuel, e, h, env).0 == Res::Ok(Some(v)),
        !is_error(v),
    ensures
        ev_block(
            fuel,
            seq![StatementV::Return { token, return_value: Some(e) }] + rest,
            h,
            env,
            acc,
        ) == (Res::Ok(Some(ObjectV::Return(Box::new(v)))), ev_expr(fuel, e, h, env).1),
{
    reveal(ev_expr);
    reveal(ev_args);
    reveal(ev_stmt);
    reveal(ev_block);
    reveal(ev_call);
    let st = StatementV::Return { token, return_value: Some(e) };
    let stmts = seq![st] + rest;
    assert(stmts[0] == st);
    assert(stmts.len() > 0);
    let h1 = ev_expr(fuel, e, h, env).1;
    assert(ev_stmt(fuel, st, h, env) == (Res::Ok(Some(ObjectV::Return(Box::new(v)))), h1));
}

/// An error in an operand is the value of an infix expression: the left
/// operand's error if it has one, else the right operand's.
pub proof fn lemma_infix_passes_errors(
    fuel: nat,
    token: TokenV,
    left: ExpressionV,
    operator: Seq<char>,
    right: ExpressionV,
    h: Seq<FrameV>,
    env: nat,
    l: ObjectV,
    r: ObjectV,
)
    requires
        ev_expr(fuel, left, h, env).0 == Res::Ok(Some(l)),
        ev_expr(fuel, right, ev_expr(fuel, left, h, env).1, env).0 == Res::Ok(Some(r)),
        is_error(l) || is_error(r),
    ensures
        ev_expr(
            fuel,
            ExpressionV::Infix { token, left: Box::new(left), operator, right: Box::new(right) },
            h,
            env,
        ).0 == Res::Ok(Some(if is_error(l) { l } else { r })),
{
    reveal(ev_expr);
    reveal(ev_args);
    reveal(ev_stmt);
    reveal(ev_block);
    reveal(ev_call);
}

} // verus!
