use vstd::prelude::*;

use crate::value::ScriptValue;

verus! {

/// What went wrong at run time.
pub enum InterpreterErrorType {
    UndefinedVariable(String),
    NotCallable,
    NotObject,
    PropertyNotFound,
    InvalidIndex,
    NotIndexable,
    /// Arithmetic or comparison on operands it is not defined for.
    InvalidOperation,
    /// The left side of an assignment is not a variable, field or element.
    NotAssignable,
    Other(String),
    /// The evaluation budget ran out.
    OutOfFuel,
}

/// A run-time error and the value it is about.
pub struct InterpreterError {
    pub target: ScriptValue,
    pub err_type: InterpreterErrorType,
}

impl InterpreterError {
    pub fn new(target: &ScriptValue, err_type: InterpreterErrorType) -> (r: InterpreterError)
        ensures
            r.target == *target,
            r.err_type == err_type,
    {
        InterpreterError { target: *target, err_type }
    }

    pub fn other(target: &ScriptValue, msg: &str) -> (r: InterpreterError)
        ensures
            r.target == *target,
            r.err_type matches InterpreterErrorType::Other(m) && m@ == msg@,
    {
        InterpreterError { target: *target, err_type: InterpreterErrorType::Other(msg.to_owned()) }
    }
}

} // verus!
