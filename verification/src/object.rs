//! The values a program computes.
use vstd::prelude::*;
use vstd::string::*;

use crate::ast;
use crate::ast::{block_str, idents_text, join, BlockStatementV, IdentifierV};
use crate::environment::Env;
use crate::parser::{all_digits, digits_val, lemma_printed_number_reads_back};
use crate::token::{keyword_kind, TokenType};
use crate::utils::{nat_str, bool_str, bool_to_string, int_str, int_to_string, push_int};

verus! {

pub const INTEGER_OBJ: &'static str = "INTEGER";

pub const BOOLEAN_OBJ: &'static str = "BOOLEAN";

pub const RETURN_OBJ: &'static str = "RETURN";

pub const NULL_OBJ: &'static str = "NULL";

pub const ERROR_OBJ: &'static str = "ERROR";

pub const FUNCTION_OBJ: &'static str = "FUNCTION";

pub const STRING_OBJ: &'static str = "STRING";

#[derive(Debug)]
pub enum Object {
    Integer(Integer),
    Boolean(Boolean),
    Return(Return),
    Null(Null),
    Error(Error),
    Function(Function),
    String_(String_),
}

#[derive(Debug)]
pub struct Integer {
    pub value: i64,
}

#[derive(Debug)]
pub struct Boolean {
    pub value: bool,
}

#[derive(Debug)]
pub struct String_ {
    pub value: String,
}

#[derive(Debug)]
pub struct Null {}

#[derive(Debug)]
pub struct Return {
    pub value: Box<Object>,
}

#[derive(Debug)]
pub struct Error {
    pub message: String,
}

/// A closure: its parameters, its body, and the environment it was made in.
#[derive(Debug)]
pub struct Function {
    pub parameters: Vec<ast::Identifier>,
    pub body: ast::BlockStatement,
    pub env: Env,
}

/// A function built into the language.
#[derive(Debug, Clone, Copy, PartialEq, Eq, Structural)]
pub enum BuiltinFunction {
    /// `len`: the length of a string in bytes.
    Len,
}

/// The mathematical value of an object.
#[verifier::ext_equal]
pub enum ObjectV {
    Integer(i64),
    Boolean(bool),
    Return(Box<ObjectV>),
    Null,
    Error(Seq<char>),
    Function { parameters: Seq<IdentifierV>, body: BlockStatementV, env: nat },
    Str(Seq<char>),
}

pub open spec fn obj_view(o: Object) -> ObjectV
    decreases o,
{
    match o {
        Object::Integer(i) => ObjectV::Integer(i.value),
        Object::Boolean(b) => ObjectV::Boolean(b.value),
        Object::Return(r) => ObjectV::Return(Box::new(obj_view(*r.value))),
        Object::Null(_) => ObjectV::Null,
        Object::Error(e) => ObjectV::Error(e.message@),
        Object::Function(f) => ObjectV::Function {
            parameters: ast::idents_view(f.parameters@),
            body: f.body@,
            env: f.env as nat,
        },
        Object::String_(s) => ObjectV::Str(s.value@),
    }
}

impl View for Object {
    type V = ObjectV;

    open spec fn view(&self) -> ObjectV {
        obj_view(*self)
    }
}

/// The name of an object's kind.
pub open spec fn kind_name(o: ObjectV) -> Seq<char> {
    match o {
        ObjectV::Integer(_) => "INTEGER"@,
        ObjectV::Boolean(_) => "BOOLEAN"@,
        ObjectV::Return(_) => "RETURN"@,
        ObjectV::Null => "NULL"@,
        ObjectV::Error(_) => "ERROR"@,
        ObjectV::Function { .. } => "FUNCTION"@,
        ObjectV::Str(_) => "STRING"@,
    }
}

/// The printed form of an object.
pub open spec fn inspect_str(o: ObjectV) -> Seq<char>
    decreases o,
{
    match o {
        ObjectV::Integer(v) => int_str(v as int),
        ObjectV::Boolean(b) => bool_str(b),
        ObjectV::Str(s) => s,
        ObjectV::Return(v) => "return "@ + inspect_str(*v),
        ObjectV::Null => "null"@,
        ObjectV::Error(m) => "Error: "@ + m,
        ObjectV::Function { parameters, body, env } => "fn("@ + join(idents_text(parameters))
            + ") {\n"@ + block_str(body) + "\n}"@,
    }
}

impl Object {
    pub fn object_type(&self) -> (r: &'static str)
        ensures
            r@ == kind_name(self@),
    {
        match self {
            Object::Integer(_) => INTEGER_OBJ,
            Object::Boolean(_) => BOOLEAN_OBJ,
            Object::Return(_) => RETURN_OBJ,
            Object::Null(_) => NULL_OBJ,
            Object::Error(_) => ERROR_OBJ,
            Object::Function(_) => FUNCTION_OBJ,
            Object::String_(_) => STRING_OBJ,
        }
    }

    pub fn inspect(&self) -> (r: String)
        ensures
            r@ == inspect_str(self@),
        decreases self,
    {
        match self {
            Object::Integer(i) => int_to_string(i.value),
            Object::Boolean(b) => bool_to_string(b.value),
            Object::String_(s) => s.value.clone(),
            Object::Return(r) => {
                let mut out = String::from_str("return ");
                let inner = r.value.inspect();
                out.append(inner.as_str());
                out
            },
            Object::Null(_) => String::from_str("null"),
            Object::Error(e) => {
                let mut out = String::from_str("Error: ");
                out.append(e.message.as_str());
                out
            },
            Object::Function(f) => {
                let mut out = String::from_str("fn(");
                ast::push_identifiers(&mut out, &f.parameters);
                out.append(") {\n");
                let b = f.body.string();
                out.append(b.as_str());
                out.append("\n}");
                assert(out@ =~= inspect_str(self@));
                out
            },
        }
    }

    /// A copy of this object with the same value.
    pub fn duplicate(&self) -> (r: Object)
        ensures
            r@ == self@,
        decreases self,
    {
        match self {
            Object::Integer(i) => Object::Integer(Integer { value: i.value }),
            Object::Boolean(b) => Object::Boolean(Boolean { value: b.value }),
            Object::Return(r) => Object::Return(Return { value: Box::new(r.value.duplicate()) }),
            Object::Null(_) => Object::Null(Null {}),
            Object::Error(e) => Object::Error(Error { message: e.message.clone() }),
            Object::Function(f) => Object::Function(
                Function {
                    parameters: ast::duplicate_identifiers(&f.parameters),
                    body: f.body.duplicate(),
                    env: f.env,
                },
            ),
            Object::String_(s) => Object::String_(String_ { value: s.value.clone() }),
        }
    }
}

// --- Error messages ---
pub open spec fn type_mismatch_msg(type_a: Seq<char>, type_b: Seq<char>) -> Seq<char> {
    "Type mismatch: expected "@ + type_a + ", got "@ + type_b
}

pub open spec fn bad_operator_msg(
    operator: Seq<char>,
    type_a: Seq<char>,
    type_b: Option<Seq<char>>,
) -> Seq<char> {
    match type_b {
        Some(b) => "Bad operator: "@ + operator + " between "@ + type_a + " and "@ + b,
        None => "Bad operator: "@ + operator + " for "@ + type_a,
    }
}

pub open spec fn unknown_operator_msg(
    operator: Seq<char>,
    type_a: Seq<char>,
    type_b: Option<Seq<char>>,
) -> Seq<char> {
    match type_b {
        Some(b) => "Unknown operator: "@ + operator + " for "@ + type_a + " and "@ + b,
        None => "Unknown operator: "@ + operator + " for "@ + type_a,
    }
}

pub open spec fn wrong_number_of_parms_msg(got: i64, want: i64) -> Seq<char> {
    "Wrong number of parameters: expected "@ + int_str(want as int) + ", got "@ + int_str(
        got as int,
    )
}

pub open spec fn type_has_no_method_msg(type_a: Seq<char>, method: Seq<char>) -> Seq<char> {
    "Type "@ + type_a + " has no method "@ + method
}

pub open spec fn undefined_variable_msg(name: Seq<char>) -> Seq<char> {
    "Undefined variable: "@ + name
}

pub open spec fn opt_str_view(o: Option<&str>) -> Option<Seq<char>> {
    match o {
        Some(s) => Some(s@),
        None => None,
    }
}

impl Error {
    pub fn type_mismatch(type_a: &str, type_b: &str) -> (r: Self)
        ensures
            r.message@ == type_mismatch_msg(type_a@, type_b@),
    {
        let mut message = String::from_str("Type mismatch: expected ");
        message.append(type_a);
        message.append(", got ");
        message.append(type_b);
        assert(message@ =~= type_mismatch_msg(type_a@, type_b@));
        Self { message }
    }

    pub fn bad_operator(operator: &str, type_a: &str, type_b: Option<&str>) -> (r: Self)
        ensures
            r.message@ == bad_operator_msg(operator@, type_a@, opt_str_view(type_b)),
    {
        let mut message = String::from_str("Bad operator: ");
        message.append(operator);
        match type_b {
            Some(type_b) => {
                message.append(" between ");
                message.append(type_a);
                message.append(" and ");
                message.append(type_b);
            },
            None => {
                message.append(" for ");
                message.append(type_a);
            },
        }
        assert(message@ =~= bad_operator_msg(operator@, type_a@, opt_str_view(type_b)));
        Self { message }
    }

    pub fn unknown_operator(operator: &str, type_a: &str, type_b: Option<&str>) -> (r: Self)
        ensures
            r.message@ == unknown_operator_msg(operator@, type_a@, opt_str_view(type_b)),
    {
        let mut message = String::from_str("Unknown operator: ");
        message.append(operator);
        message.append(" for ");
        message.append(type_a);
        match type_b {
            Some(type_b) => {
                message.append(" and ");
                message.append(type_b);
            },
            None => {},
        }
        assert(message@ =~= unknown_operator_msg(operator@, type_a@, opt_str_view(type_b)));
        Self { message }
    }

    pub fn undefined_variable(name: &str) -> (r: Self)
        ensures
            r.message@ == undefined_variable_msg(name@),
    {
        let mut message = String::from_str("Undefined variable: ");
        message.append(name);
        Self { message }
    }

    pub fn wrong_number_of_parms(got: i64, want: i64) -> (r: Self)
        ensures
            r.message@ == wrong_number_of_parms_msg(got, want),
    {
        let mut message = String::from_str("Wrong number of parameters: expected ");
        push_int(&mut message, want);
        message.append(", got ");
        push_int(&mut message, got);
        Self { message }
    }

    pub fn type_has_no_method(type_a: &str, method: &str) -> (r: Self)
        ensures
            r.message@ == type_has_no_method_msg(type_a@, method@),
    {
        let mut message = String::from_str("Type ");
        message.append(type_a);
        message.append(" has no method ");
        message.append(method);
        Self { message }
    }

    pub fn custom(message: String) -> (r: Self)
        ensures
            r.message == message,
    {
        Self { message }
    }
}

/// A printed boolean reads back as that boolean: its text is the keyword of
/// the same truth value, so `true` and `false` print differently.
pub proof fn lemma_printed_boolean_reads_back(b: bool)
    ensures
        keyword_kind(inspect_str(ObjectV::Boolean(b))) == (if b {
            TokenType::True
        } else {
            TokenType::False
        }),
        inspect_str(ObjectV::Boolean(b)) != inspect_str(ObjectV::Boolean(!b)),
{
    reveal_strlit("true");
    reveal_strlit("false");
    reveal_strlit("fn");
    reveal_strlit("let");
    assert("true"@.len() != "false"@.len());
    assert("true"@.len() != "fn"@.len());
    assert("true"@.len() != "let"@.len());
    assert("false"@.len() != "fn"@.len());
    assert("false"@.len() != "let"@.len());
}

/// A printed non-negative integer reads back as that integer: its text is
/// all digits, and their value is the integer.
pub proof fn lemma_printed_integer_reads_back(v: i64)
    requires
        v >= 0,
    ensures
        all_digits(inspect_str(ObjectV::Integer(v))),
        digits_val(inspect_str(ObjectV::Integer(v))) == v,
{
    lemma_printed_number_reads_back(v as nat);
}

/// Each kind of value has its own name.
pub proof fn lemma_kind_names_differ(a: ObjectV, b: ObjectV)
    ensures
        kind_name(a) == kind_name(b) <==> (
            (a is Integer && b is Integer) || (a is Boolean && b is Boolean) || (a is Return
                && b is Return) || (a is Null && b is Null) || (a is Error && b is Error) || (
            a is Function && b is Function) || (a is Str && b is Str)),
{
    reveal_strlit("INTEGER");
    reveal_strlit("BOOLEAN");
    reveal_strlit("RETURN");
    reveal_strlit("NULL");
    reveal_strlit("ERROR");
    reveal_strlit("FUNCTION");
    reveal_strlit("STRING");
    assert("INTEGER"@[0] != "BOOLEAN"@[0]);
    assert("INTEGER"@.len() != "RETURN"@.len());
    assert("INTEGER"@.len() != "NULL"@.len());
    assert("INTEGER"@.len() != "ERROR"@.len());
    assert("INTEGER"@.len() != "FUNCTION"@.len());
    assert("INTEGER"@.len() != "STRING"@.len());
    assert("BOOLEAN"@.len() != "RETURN"@.len());
    assert("BOOLEAN"@.len() != "NULL"@.len());
    assert("BOOLEAN"@.len() != "ERROR"@.len());
    assert("BOOLEAN"@.len() != "FUNCTION"@.len());
    assert("BOOLEAN"@.len() != "STRING"@.len());
    assert("RETURN"@.len() != "NULL"@.len());
    assert("RETURN"@.len() != "ERROR"@.len());
    assert("RETURN"@.len() != "FUNCTION"@.len());
    assert("RETURN"@[0] != "STRING"@[0]);
    assert("NULL"@.len() != "ERROR"@.len());
    assert("NULL"@.len() != "FUNCTION"@.len());
    assert("NULL"@.len() != "STRING"@.len());
    assert("ERROR"@.len() != "FUNCTION"@.len());
    assert("ERROR"@.len() != "STRING"@.len());
    assert("FUNCTION"@.len() != "STRING"@.len());
}

/// How values print: a string as its own text, null as `null`, an error as
/// `Error: ` and its message, a returned value as `return ` and the value's
/// text, and a negative integer as `-` and the text of its magnitude.
pub proof fn lemma_printed_forms(o: ObjectV)
    ensures
        o matches ObjectV::Str(t) ==> inspect_str(o) == t,
        o is Null ==> inspect_str(o) == "null"@,
        o matches ObjectV::Error(m) ==> inspect_str(o) == "Error: "@ + m,
        o matches ObjectV::Return(v) ==> inspect_str(o) == "return "@ + inspect_str(*v),
        o matches ObjectV::Integer(v) ==> (v < 0 ==> inspect_str(o) == seq!['-'] + nat_str(
            (-v) as nat,
        )) && (v >= 0 ==> inspect_str(o) == nat_str(v as nat)),
{
}

} // verus!
