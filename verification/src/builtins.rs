//! The functions built into the language.
use vstd::prelude::*;
use vstd::string::*;
use vstd::utf8::{encode_utf8, is_ascii_chars};

use crate::object::{
    kind_name, type_has_no_method_msg, wrong_number_of_parms_msg, BuiltinFunction, Error,
    Integer, Object, ObjectV,
};
use crate::token::str_eq;

verus! {

/// The value of `len` on arguments: the number of bytes of a single string
/// argument, or an error.
pub open spec fn len_spec(args: Seq<ObjectV>) -> ObjectV {
    if args.len() != 1 {
        ObjectV::Error(wrong_number_of_parms_msg(args.len() as i64, 1))
    } else {
        match args[0] {
            ObjectV::Str(s) => ObjectV::Integer((encode_utf8(s).len() as usize) as i64),
            o => ObjectV::Error(type_has_no_method_msg(kind_name(o), "len()"@)),
        }
    }
}

/// The builtin named `name`, if there is one.
pub open spec fn builtin_named(name: Seq<char>) -> Option<BuiltinFunction> {
    if name == "len"@ {
        Some(BuiltinFunction::Len)
    } else {
        None
    }
}

pub fn len(args: Vec<Object>) -> (r: Object)
    ensures
        r@ == len_spec(Seq::new(args@.len(), |i: int| args@[i]@)),
{
    if args.len() != 1 {
        return Object::Error(Error::wrong_number_of_parms(args.len() as i64, 1));
    }
    match &args[0] {
        Object::String_(string) => Object::Integer(
            Integer { value: string.value.as_str().len() as i64 },
        ),
        _ => Object::Error(Error::type_has_no_method(args[0].object_type(), "len()")),
    }
}

pub fn builtins(func: &str) -> (r: Option<BuiltinFunction>)
    ensures
        r == builtin_named(func@),
{
    if str_eq(func, "len") {
        Some(BuiltinFunction::Len)
    } else {
        None
    }
}

impl BuiltinFunction {
    /// Calls this builtin on `args`.
    pub fn call(&self, args: Vec<Object>) -> (r: Object)
        ensures
            r@ == match self {
                BuiltinFunction::Len => len_spec(Seq::new(args@.len(), |i: int| args@[i]@)),
            },
    {
        match self {
            BuiltinFunction::Len => len(args),
        }
    }
}

/// `len` of an ASCII string is its number of characters.
pub proof fn lemma_len_of_ascii_string(s: Seq<char>)
    requires
        is_ascii_chars(s),
        s.len() <= usize::MAX,
        s.len() <= i64::MAX,
    ensures
        len_spec(seq![ObjectV::Str(s)]) == ObjectV::Integer(s.len() as i64),
{
    vstd::utf8::is_ascii_chars_encode_utf8(s);
}

} // verus!
