//! The values of the plain evaluator: integers, booleans, null, returned
//! values and errors. Their mathematical values are those of
//! `crate::object::ObjectV`.
use vstd::prelude::*;
use vstd::string::*;

use crate::object::{inspect_str, kind_name, ObjectV};
use crate::utils::{bool_to_string, int_to_string};

verus! {

pub const INTEGER_OBJ: &'static str = "INTEGER";

pub const BOOLEAN_OBJ: &'static str = "BOOLEAN";

pub const RETURN_OBJ: &'static str = "RETURN";

pub const NULL_OBJ: &'static str = "NULL";

pub const ERROR_OBJ: &'static str = "ERROR";

#[derive(Debug)]
pub enum Object {
    Integer(Integer),
    Boolean(Boolean),
    Return(Return),
    Null(Null),
    Error(Error),
}

#[derive(Debug)]
pub struct Integer {
    pub value: i64,
}

#[derive(Debug)]
pub struct Boolean {
    pub value: bool,
}

#[derive(Debug)]
pub struct Null {}

#[derive(Debug)]
pub struct Return {
    pub value: Box<Object>,
}

#[derive(Debug)]
pub struct Error {
    pub message: String,
}

pub open spec fn obj_view(o: Object) -> ObjectV
    decreases o,
{
    match o {
        Object::Integer(i) => ObjectV::Integer(i.value),
        Object::Boolean(b) => ObjectV::Boolean(b.value),
        Object::Return(r) => ObjectV::Return(Box::new(obj_view(*r.value))),
        Object::Null(_) => ObjectV::Null,
        Object::Error(e) => ObjectV::Error(e.message@),
    }
}

impl View for Object {
    type V = ObjectV;

    open spec fn view(&self) -> ObjectV {
        obj_view(*self)
    }
}

impl Object {
    pub fn object_type(&self) -> (r: &'static str)
        ensures
            r@ == kind_name(self@),
    {
        match self {
            Object::Integer(_) => INTEGER_OBJ,
            Object::Boolean(_) => BOOLEAN_OBJ,
            Object::Return(_) => RETURN_OBJ,
            Object::Null(_) => NULL_OBJ,
            Object::Error(_) => ERROR_OBJ,
        }
    }

    pub fn inspect(&self) -> (r: String)
        ensures
            r@ == inspect_str(self@),
        decreases self,
    {
        match self {
            Object::Integer(i) => int_to_string(i.value),
            Object::Boolean(b) => bool_to_string(b.value),
            Object::Return(r) => {
                let mut out = String::from_str("return ");
                let inner = r.value.inspect();
                out.append(inner.as_str());
                out
            },
            Object::Null(_) => String::from_str("null"),
            Object::Error(e) => {
                let mut out = String::from_str("Error: ");
                out.append(e.message.as_str());
                out
            },
        }
    }
}

} // verus!
