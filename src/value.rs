use vstd::prelude::*;

use crate::errors::{InterpreterError, InterpreterErrorType};
use crate::expression::BinaryOp;

verus! {

/// A runtime value. Aggregates are handles into the interpreter's heap, so
/// two holders of one handle observe each other's mutations.
#[derive(PartialEq, Eq, Structural, Clone, Copy, Debug)]
pub enum ScriptValue {
    Number(i64),
    Str(usize),
    Boolean(bool),
    Function(usize),
    Object(usize),
    List(usize),
    Null,
    Unit,
}

/// How a statement finished: normally, or with a `return` in flight.
#[derive(PartialEq, Eq, Structural, Clone, Copy, Debug)]
pub enum StatementValue {
    Normal(ScriptValue),
    Return(ScriptValue),
}

impl StatementValue {
    pub open spec fn value(self) -> ScriptValue {
        match self {
            StatementValue::Normal(v) => v,
            StatementValue::Return(v) => v,
        }
    }
}

/// Integer division rounding toward zero.
pub open spec fn trunc_div(x: int, y: int) -> int {
    let q = (if x < 0 { -x } else { x }) / (if y < 0 { -y } else { y });
    if (x < 0) != (y < 0) {
        -q
    } else {
        q
    }
}

/// The exact result of an arithmetic operator on two numbers; `None` for
/// division by zero and for operators that are not arithmetic.
pub open spec fn arith(op: BinaryOp, x: int, y: int) -> Option<int> {
    match op {
        BinaryOp::Plus => Some(x + y),
        BinaryOp::Minus => Some(x - y),
        BinaryOp::Star => Some(x * y),
        BinaryOp::Slash => if y == 0 {
            None
        } else {
            Some(trunc_div(x, y))
        },
        _ => None,
    }
}

/// What a comparison gives on two values, where it is defined: the six
/// relations on numbers, equality and inequality on booleans.
pub open spec fn compare(op: BinaryOp, a: ScriptValue, b: ScriptValue) -> Option<bool> {
    match (a, b) {
        (ScriptValue::Number(x), ScriptValue::Number(y)) => match op {
            BinaryOp::Equals => Some(x == y),
            BinaryOp::NotEquals => Some(x != y),
            BinaryOp::Lesser => Some(x < y),
            BinaryOp::Greater => Some(x > y),
            BinaryOp::EqLesser => Some(x <= y),
            BinaryOp::EqGreater => Some(x >= y),
            _ => None,
        },
        (ScriptValue::Boolean(x), ScriptValue::Boolean(y)) => match op {
            BinaryOp::Equals => Some(x == y),
            BinaryOp::NotEquals => Some(x != y),
            _ => None,
        },
        _ => None,
    }
}

/// The number an arithmetic operator gives, where it is defined and fits.
pub open spec fn numeric_spec(a: ScriptValue, b: ScriptValue, op: BinaryOp) -> Option<i64> {
    match (a, b) {
        (ScriptValue::Number(x), ScriptValue::Number(y)) => match arith(op, x as int, y as int) {
            Some(v) => if i64::MIN <= v <= i64::MAX {
                Some(v as i64)
            } else {
                None
            },
            None => None,
        },
        _ => None,
    }
}

proof fn lemma_product_bound(x: int, y: int)
    requires
        -0x8000_0000_0000_0000 <= x <= 0x8000_0000_0000_0000,
        -0x8000_0000_0000_0000 <= y <= 0x8000_0000_0000_0000,
    ensures
        -0x4000_0000_0000_0000_0000_0000_0000_0000 <= x * y <= 0x4000_0000_0000_0000_0000_0000_0000_0000,
{
    let b: int = 0x8000_0000_0000_0000;
    let ax = if x < 0 { -x } else { x };
    let ay = if y < 0 { -y } else { y };
    assert(ax * ay <= b * b) by (nonlinear_arith)
        requires 0 <= ax <= b, 0 <= ay <= b;
    assert(x * y == ax * ay || x * y == -(ax * ay)) by (nonlinear_arith)
        requires ax == x || ax == -x, ay == y || ay == -y;
    assert(ax * ay >= 0) by (nonlinear_arith)
        requires 0 <= ax, 0 <= ay;
}

fn magnitude(x: i64) -> (r: u64)
    ensures
        r as int == if x < 0 { -(x as int) } else { x as int },
{
    if x < 0 {
        ((-(x as i128)) as u64)
    } else {
        x as u64
    }
}

impl ScriptValue {
    /// Arithmetic: `+ - * /` on two numbers. Division rounds toward zero.
    /// Other operands, division by zero and results out of range fail.
    pub fn numeric(&self, other: ScriptValue, operator: BinaryOp) -> (r: Result<ScriptValue, InterpreterError>)
        ensures
            match numeric_spec(*self, other, operator) {
                Some(v) => r == Ok::<ScriptValue, InterpreterError>(ScriptValue::Number(v)),
                None => r matches Err(e) && e.target == *self && e.err_type is InvalidOperation,
            },
    {
        let fail = Err(InterpreterError::new(self, InterpreterErrorType::InvalidOperation));
        match (self, other) {
            (ScriptValue::Number(x), ScriptValue::Number(y)) => {
                let (x, y) = (*x as i128, y as i128);
                let v: i128 = match operator {
                    BinaryOp::Plus => x + y,
                    BinaryOp::Minus => x - y,
                    BinaryOp::Star => {
                        proof {
                            lemma_product_bound(x as int, y as int);
                        }
                        x * y
                    },
                    BinaryOp::Slash => {
                        if y == 0 {
                            return fail;
                        }
                        let q = (magnitude(x as i64) / magnitude(y as i64)) as i128;
                        if (x < 0) != (y < 0) {
                            -q
                        } else {
                            q
                        }
                    },
                    _ => {
                        return fail;
                    },
                };
                if v < i64::MIN as i128 || v > i64::MAX as i128 {
                    return fail;
                }
                Ok(ScriptValue::Number(v as i64))
            },
            _ => fail,
        }
    }

    /// Comparison: the six relations on numbers, `==` and `!=` on booleans.
    pub fn boolean(&self, other: ScriptValue, operator: BinaryOp) -> (r: Result<ScriptValue, InterpreterError>)
        ensures
            match compare(operator, *self, other) {
                Some(b) => r == Ok::<ScriptValue, InterpreterError>(ScriptValue::Boolean(b)),
                None => r matches Err(e) && e.target == *self && e.err_type is InvalidOperation,
            },
    {
        let result = match (self, other) {
            (ScriptValue::Number(x), ScriptValue::Number(y)) => match operator {
                BinaryOp::Equals => Some(*x == y),
                BinaryOp::NotEquals => Some(*x != y),
                BinaryOp::Lesser => Some(*x < y),
                BinaryOp::Greater => Some(*x > y),
                BinaryOp::EqLesser => Some(*x <= y),
                BinaryOp::EqGreater => Some(*x >= y),
                _ => None,
            },
            (ScriptValue::Boolean(x), ScriptValue::Boolean(y)) => match operator {
                BinaryOp::Equals => Some(*x == y),
                BinaryOp::NotEquals => Some(*x != y),
                _ => None,
            },
            _ => None,
        };
        match result {
            Some(b) => Ok(ScriptValue::Boolean(b)),
            None => Err(InterpreterError::new(self, InterpreterErrorType::InvalidOperation)),
        }
    }
}

} // verus!
