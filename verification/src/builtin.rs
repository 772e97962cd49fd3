//! The functions that the language provides by name.

use vstd::prelude::*;
use vstd::string::*;
use vstd::utf8::encode_utf8;

use crate::evaluator::{objects_view, result_view, EvalError, Object, ObjectView};

verus! {

/// A function of the built-in registry.
#[derive(Debug, Clone, Copy, PartialEq, Eq, Structural)]
pub enum BuiltinFunction {
    /// `len`: the length of a string in bytes.
    Len,
}

/// The built-in function registered under `name`, if there is one.
pub open spec fn builtin_named(name: Seq<char>) -> Option<BuiltinFunction> {
    if name == "len"@ {
        Some(BuiltinFunction::Len)
    } else {
        None
    }
}

/// What `len` returns for the arguments `args`: the length in bytes of its
/// first argument, which must be a string. Without a first argument, or with
/// one of another kind, the call is an error.
pub open spec fn len_spec(args: Seq<ObjectView>) -> Result<ObjectView, EvalError> {
    if args.len() > 0 && args[0] is String {
        let length = encode_utf8(args[0]->String_0).len();
        if length <= i32::MAX {
            Ok(ObjectView::Integer(length as int))
        } else {
            Err(EvalError::IntegerOverflow)
        }
    } else {
        Err(EvalError::WrongArgumentType)
    }
}

/// What the built-in `function` returns for the arguments `args`.
pub open spec fn apply_builtin_spec(function: BuiltinFunction, args: Seq<ObjectView>) -> Result<
    ObjectView,
    EvalError,
> {
    match function {
        BuiltinFunction::Len => len_spec(args),
    }
}

/// Looks `name` up in the registry of built-in functions.
pub fn lookup_builtin(name: &str) -> (function: Option<BuiltinFunction>)
    ensures
        function == builtin_named(name@),
{
    if same_text(name, "len") {
        Some(BuiltinFunction::Len)
    } else {
        None
    }
}

/// Whether two texts are made of the same characters.
pub fn same_text(a: &str, b: &str) -> (same: bool)
    ensures
        same == (a@ == b@),
{
    String::from_str(a) == String::from_str(b)
}

/// The built-in `len`: the length in bytes of the string that is its first
/// argument.
pub fn len(args: &Vec<Object>) -> (result: Result<Object, EvalError>)
    ensures
        result_view(result) == len_spec(objects_view(args@)),
{
    if args.len() == 0 {
        return Err(EvalError::WrongArgumentType);
    }
    assert(objects_view(args@)[0] == args[0]@);
    match &args[0] {
        Object::String(text) => {
            let length = text.as_str().as_bytes().len();
            if length <= i32::MAX as usize {
                Ok(Object::Integer(length as i32))
            } else {
                Err(EvalError::IntegerOverflow)
            }
        },
        _ => Err(EvalError::WrongArgumentType),
    }
}

/// Calls the built-in `function` with the arguments `args`.
pub fn apply_builtin(function: BuiltinFunction, args: &Vec<Object>) -> (result: Result<
    Object,
    EvalError,
>)
    ensures
        result_view(result) == apply_builtin_spec(
            function,
            objects_view(args@),
        ),
{
    match function {
        BuiltinFunction::Len => len(args),
    }
}

} // verus!
