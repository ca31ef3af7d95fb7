use vstd::prelude::*;

use crate::environment::{Env, Environment, defining_frame, frame_get};
use crate::errors::{InterpreterError, InterpreterErrorType};
use crate::expression::{BinaryOp, Expression, Literal};
use crate::interpreter::{DISPLAY_DEPTH, ExpressionResult, Interpreter, StatementResult, join_texts, scalar_text};
use crate::statement::{Builtin, Statement};
use crate::value::{ScriptValue, StatementValue, compare, numeric_spec};

verus! {

/// Names the intermediate states and results of a step; always true, it
/// serves as the trigger of the existential quantifiers below.
pub open spec fn witness<A>(a: A) -> bool {
    true
}

// ---- Heap steps -------------------------------------------------------------

/// `t` is `s` with the scope handle moved to `e`.
pub open spec fn with_env(s: Interpreter, e: Environment) -> Interpreter {
    Interpreter {
        env: e,
        frames: s.frames,
        functions: s.functions,
        objects: s.objects,
        lists: s.lists,
        strings: s.strings,
        output: s.output,
    }
}

/// Only the frames may differ between `s` and `t`.
pub open spec fn same_but_frames(s: Interpreter, t: Interpreter) -> bool {
    &&& t.env == s.env
    &&& t.functions == s.functions
    &&& t.objects == s.objects
    &&& t.lists == s.lists
    &&& t.strings == s.strings
    &&& t.output == s.output
}

/// `t` is `s` with frame `f` now binding `name` to `v`.
pub open spec fn binds_in(s: Interpreter, t: Interpreter, f: int, name: Seq<char>, v: ScriptValue) -> bool {
    &&& same_but_frames(s, t)
    &&& t.frames@.len() == s.frames@.len()
    &&& forall|i: int| 0 <= i < s.frames@.len() && i != f ==> #[trigger] t.frames@[i] == s.frames@[i]
    &&& t.frames@[f].parent == s.frames@[f].parent
    &&& forall|n: Seq<char>|
        #[trigger] frame_get(t.frames@[f].variables@, n) == if n == name {
            Some(v)
        } else {
            frame_get(s.frames@[f].variables@, n)
        }
}

/// `t` is `s` after assigning `v` to the existing variable `name`: the nearest
/// frame that binds it now binds it to `v`.
pub open spec fn assigns(s: Interpreter, t: Interpreter, name: Seq<char>, v: ScriptValue) -> bool {
    binds_in(s, t, defining_frame(s.frames@, s.env.env as int, name)->Some_0, name, v)
}

/// `t` is `s` with a new empty frame whose parent is `parent`.
pub open spec fn pushes_frame(s: Interpreter, t: Interpreter, parent: usize) -> bool {
    &&& same_but_frames(s, t)
    &&& t.frames@.len() == s.frames@.len() + 1
    &&& forall|i: int| 0 <= i < s.frames@.len() ==> #[trigger] t.frames@[i] == s.frames@[i]
    &&& t.frames@[s.frames@.len() as int].parent == Some(parent)
    &&& t.frames@[s.frames@.len() as int].variables@.len() == 0
}

/// `t` is `s` with a new function.
pub open spec fn pushes_function(s: Interpreter, t: Interpreter, params: Seq<String>, body: Statement, env: usize) -> bool {
    &&& t.env == s.env
    &&& t.frames == s.frames
    &&& t.objects == s.objects
    &&& t.lists == s.lists
    &&& t.strings == s.strings
    &&& t.output == s.output
    &&& t.functions@.len() == s.functions@.len() + 1
    &&& forall|i: int| 0 <= i < s.functions@.len() ==> #[trigger] t.functions@[i] == s.functions@[i]
    &&& (*t.functions@.last().params)@ == params
    &&& *t.functions@.last().body == body
    &&& t.functions@.last().env == env
}

/// `t` is `s` with a new string holding `text`.
pub open spec fn pushes_string(s: Interpreter, t: Interpreter, text: Seq<char>) -> bool {
    &&& t.env == s.env
    &&& t.frames == s.frames
    &&& t.functions == s.functions
    &&& t.objects == s.objects
    &&& t.lists == s.lists
    &&& t.output == s.output
    &&& t.strings@.len() == s.strings@.len() + 1
    &&& forall|i: int| 0 <= i < s.strings@.len() ==> #[trigger] t.strings@[i] == s.strings@[i]
    &&& t.strings@.last()@ == text
}

/// `t` is `s` with a new list holding `items`.
pub open spec fn pushes_list(s: Interpreter, t: Interpreter, items: Seq<ScriptValue>) -> bool {
    &&& t.env == s.env
    &&& t.frames == s.frames
    &&& t.functions == s.functions
    &&& t.objects == s.objects
    &&& t.strings == s.strings
    &&& t.output == s.output
    &&& t.lists@ == s.lists@.push(t.lists@.last())
    &&& t.lists@.last()@ == items
}

/// `t` is `s` with a new empty object.
pub open spec fn pushes_object(s: Interpreter, t: Interpreter) -> bool {
    &&& t.env == s.env
    &&& t.frames == s.frames
    &&& t.functions == s.functions
    &&& t.lists == s.lists
    &&& t.strings == s.strings
    &&& t.output == s.output
    &&& t.objects@.len() == s.objects@.len() + 1
    &&& forall|i: int| 0 <= i < s.objects@.len() ==> #[trigger] t.objects@[i] == s.objects@[i]
    &&& t.objects@.last().fields@.len() == 0
}

/// `t` is `s` with field `key` of object `o` set to `v`, nothing else changed.
pub open spec fn stores_field(s: Interpreter, t: Interpreter, o: int, key: Seq<char>, v: ScriptValue) -> bool {
    &&& t.env == s.env
    &&& t.frames == s.frames
    &&& t.functions == s.functions
    &&& t.lists == s.lists
    &&& t.strings == s.strings
    &&& t.output == s.output
    &&& t.objects@.len() == s.objects@.len()
    &&& forall|i: int| 0 <= i < s.objects@.len() && i != o ==> #[trigger] t.objects@[i] == s.objects@[i]
    &&& forall|n: Seq<char>|
        #[trigger] frame_get(t.objects@[o].fields@, n) == if n == key {
            Some(v)
        } else {
            frame_get(s.objects@[o].fields@, n)
        }
}

/// Setting field `key` of object `o` to `v`; a function is first bound to the
/// object: a copy of it captures a new child of its frame that binds `self`.
pub open spec fn sets_field(s: Interpreter, t: Interpreter, o: int, key: Seq<char>, v: ScriptValue) -> bool {
    match v {
        ScriptValue::Function(fi) => exists|m1: Interpreter, m2: Interpreter, m3: Interpreter|
            #[trigger] witness((m1, m2, m3)) && method_steps(s, m1, m2, m3, fi as int, o) && stores_field(
                m3,
                t,
                o,
                key,
                ScriptValue::Function(s.functions@.len() as usize),
            ),
        _ => stores_field(s, t, o, key, v),
    }
}

pub open spec fn method_steps(s: Interpreter, m1: Interpreter, m2: Interpreter, m3: Interpreter, fi: int, o: int) -> bool {
    let f = s.functions@[fi];
    let frame = s.frames@.len() as int;
    &&& pushes_frame(s, m1, f.env)
    &&& binds_in(m1, m2, frame, seq!['s', 'e', 'l', 'f'], ScriptValue::Object(o as usize))
    &&& pushes_function(m2, m3, (*f.params)@, *f.body, frame as usize)
}

/// `t` is `s` with element `k` of list `l` set to `v`.
pub open spec fn stores_element(s: Interpreter, t: Interpreter, l: int, k: int, v: ScriptValue) -> bool {
    &&& t.env == s.env
    &&& t.frames == s.frames
    &&& t.functions == s.functions
    &&& t.objects == s.objects
    &&& t.strings == s.strings
    &&& t.output == s.output
    &&& t.lists@ == s.lists@.update(l, t.lists@[l])
    &&& t.lists@[l]@ == s.lists@[l]@.update(k, v)
}

/// `t` is `s` with one more output line.
pub open spec fn prints(s: Interpreter, t: Interpreter, line: Seq<char>) -> bool {
    &&& t.env == s.env
    &&& t.frames == s.frames
    &&& t.functions == s.functions
    &&& t.objects == s.objects
    &&& t.lists == s.lists
    &&& t.strings == s.strings
    &&& t.output@.len() == s.output@.len() + 1
    &&& forall|i: int| 0 <= i < s.output@.len() ==> #[trigger] t.output@[i] == s.output@[i]
    &&& t.output@.last()@ == line
}

// ---- Display ------------------------------------------------------------------

/// The display form of a value, looking `depth` levels into lists and objects.
pub open spec fn display_spec(s: Interpreter, v: ScriptValue, depth: nat) -> Seq<char>
    decreases depth, 0nat,
{
    match v {
        ScriptValue::List(l) => if depth == 0 {
            seq!['.', '.', '.']
        } else {
            seq!['['] + join_texts(list_texts(s, l as int, (depth - 1) as nat)) + seq![']']
        },
        ScriptValue::Object(o) => if depth == 0 {
            seq!['.', '.', '.']
        } else {
            seq!['{', ' '] + join_texts(field_texts(s, o as int, (depth - 1) as nat)) + seq![' ', '}']
        },
        _ => scalar_text(&s, v)->Some_0,
    }
}

/// The display forms, `depth` levels deep, of the elements of list `l`.
pub open spec fn list_texts(s: Interpreter, l: int, depth: nat) -> Seq<Seq<char>>
    decreases depth, 1nat,
{
    let items = s.lists@[l]@;
    Seq::new(items.len(), |k: int| if 0 <= k < items.len() { display_spec(s, items[k], depth) } else { Seq::empty() })
}

/// `name: value` for each field of object `o`, values shown `depth` levels deep.
pub open spec fn field_texts(s: Interpreter, o: int, depth: nat) -> Seq<Seq<char>>
    decreases depth, 1nat,
{
    let fields = s.objects@[o].fields@;
    Seq::new(
        fields.len(),
        |k: int|
            if 0 <= k < fields.len() {
                fields[k].name@ + seq![':', ' '] + match frame_get(fields, fields[k].name@) {
                    Some(x) => display_spec(s, x, depth),
                    None => Seq::empty(),
                }
            } else {
                Seq::empty()
            },
    )
}

// ---- Evaluation ---------------------------------------------------------------

pub open spec fn error_of(target: ScriptValue, err_type: InterpreterErrorType) -> InterpreterError {
    InterpreterError { target, err_type }
}

pub open spec fn out_of_fuel_error() -> InterpreterError {
    error_of(ScriptValue::Null, InterpreterErrorType::OutOfFuel)
}

/// What an arithmetic operator gives on two values.
pub open spec fn numeric_result(a: ScriptValue, b: ScriptValue, op: BinaryOp) -> ExpressionResult {
    match numeric_spec(a, b, op) {
        Some(n) => Ok(ScriptValue::Number(n)),
        None => Err(error_of(a, InterpreterErrorType::InvalidOperation)),
    }
}

/// What a comparison gives on two values.
pub open spec fn compare_result(a: ScriptValue, b: ScriptValue, op: BinaryOp) -> ExpressionResult {
    match compare(op, a, b) {
        Some(x) => Ok(ScriptValue::Boolean(x)),
        None => Err(error_of(a, InterpreterErrorType::InvalidOperation)),
    }
}

/// Both operands, left first, each with one unit less of `fuel`, then the
/// operator on their values.
pub open spec fn binary_rel(
    s: Interpreter,
    left: Expression,
    right: Expression,
    op: BinaryOp,
    arithmetic: bool,
    fuel: nat,
    t: Interpreter,
    r: ExpressionResult,
) -> bool
    decreases fuel, 1nat,
{
    fuel > 0 && exists|mid: Interpreter, ra: ExpressionResult|
        #[trigger] witness((mid, ra)) && eval_rel(s, left, (fuel - 1) as nat, mid, ra) && match ra {
            Err(e) => t == mid && r == Err::<ScriptValue, InterpreterError>(e),
            Ok(a) => exists|rb: ExpressionResult|
                #[trigger] witness(rb) && eval_rel(mid, right, (fuel - 1) as nat, t, rb) && match rb {
                    Err(e) => r == Err::<ScriptValue, InterpreterError>(e),
                    Ok(b) => r == if arithmetic {
                        numeric_result(a, b, op)
                    } else {
                        compare_result(a, b, op)
                    },
                },
        }
}

/// Evaluating `e` in state `s` with budget `fuel` ends in state `t` with `r`.
pub open spec fn eval_rel(s: Interpreter, e: Expression, fuel: nat, t: Interpreter, r: ExpressionResult) -> bool
    decreases fuel, 2nat,
{
    if fuel == 0 {
        t == s && r == Err::<ScriptValue, InterpreterError>(out_of_fuel_error())
    } else {
        let f = (fuel - 1) as nat;
        match e {
            Expression::Value(Literal::Number(n)) => t == s && r == Ok::<ScriptValue, InterpreterError>(ScriptValue::Number(n)),
            Expression::Value(Literal::Str(text)) => pushes_string(s, t, text@) && r == Ok::<ScriptValue, InterpreterError>(
                ScriptValue::Str(s.strings@.len() as usize),
            ),
            Expression::Value(Literal::Boolean(b)) => t == s && r == Ok::<ScriptValue, InterpreterError>(ScriptValue::Boolean(b)),
            Expression::Value(Literal::Null) => t == s && r == Ok::<ScriptValue, InterpreterError>(ScriptValue::Null),
            Expression::Variable(v) => t == s && r == match s.variable(v.identifier@) {
                Some(x) => Ok(x),
                None => Err(error_of(ScriptValue::Null, InterpreterErrorType::UndefinedVariable(v.identifier))),
            },
            Expression::Multiplication { left, right, operator } => binary_rel(s, *left, *right, operator, true, fuel, t, r),
            Expression::Addition { left, right, operator } => binary_rel(s, *left, *right, operator, true, fuel, t, r),
            Expression::Condition { left, right, operator } => binary_rel(s, *left, *right, operator, false, fuel, t, r),
            Expression::Call { callee, args } => call_expr_rel(s, *callee, args@, f, t, r),
            Expression::Index { target, index } => exists|mid: Interpreter, rt: ExpressionResult|
                #[trigger] witness((mid, rt)) && eval_rel(s, *target, f, mid, rt) && match rt {
                    Err(e) => t == mid && r == Err::<ScriptValue, InterpreterError>(e),
                    Ok(ScriptValue::List(l)) => exists|ri: ExpressionResult|
                        #[trigger] witness(ri) && eval_rel(mid, *index, f, t, ri) && match ri {
                            Err(e) => r == Err::<ScriptValue, InterpreterError>(e),
                            Ok(ScriptValue::Number(n)) => r == if 0 <= n < t.lists@[l as int]@.len() {
                                Ok(t.lists@[l as int]@[n as int])
                            } else {
                                Err(error_of(ScriptValue::Number(n), InterpreterErrorType::InvalidIndex))
                            },
                            Ok(i) => r == Err::<ScriptValue, InterpreterError>(error_of(i, InterpreterErrorType::InvalidIndex)),
                        },
                    Ok(x) => t == mid && r == Err::<ScriptValue, InterpreterError>(error_of(x, InterpreterErrorType::NotIndexable)),
                },
            Expression::Access { target, field } => exists|rt: ExpressionResult|
                #[trigger] witness(rt) && eval_rel(s, *target, f, t, rt) && match rt {
                    Err(e) => r == Err::<ScriptValue, InterpreterError>(e),
                    Ok(ScriptValue::Object(o)) => r == match frame_get(t.objects@[o as int].fields@, field@) {
                        Some(x) => Ok(x),
                        None => Err(error_of(ScriptValue::Object(o), InterpreterErrorType::PropertyNotFound)),
                    },
                    Ok(x) => r == Err::<ScriptValue, InterpreterError>(error_of(x, InterpreterErrorType::NotObject)),
                },
        }
    }
}

/// `callee(args)` with budget `fuel`: the callee, then in a bracketing scope one
/// argument per parameter, then the call; the scope handle comes back.
pub open spec fn call_expr_rel(s: Interpreter, callee: Expression, args: Seq<Expression>, fuel: nat, t: Interpreter, r: ExpressionResult) -> bool
    decreases fuel, 1nat,
{
    if fuel == 0 {
        t == s && r == Err::<ScriptValue, InterpreterError>(out_of_fuel_error())
    } else {
        let f = (fuel - 1) as nat;
        exists|mid: Interpreter, rc: ExpressionResult|
            #[trigger] witness((mid, rc)) && eval_rel(s, callee, f, mid, rc) && match rc {
                Err(e) => t == mid && r == Err::<ScriptValue, InterpreterError>(e),
                Ok(ScriptValue::Function(fi)) => {
                    let nparams = (*mid.functions@[fi as int].params)@.len();
                    let n: int = if nparams < args.len() { nparams as int } else { args.len() as int };
                    exists|m1: Interpreter, m2: Interpreter, rv: Result<Seq<ScriptValue>, InterpreterError>|
                        #[trigger] witness((m1, m2, rv)) && args_rel(
                            with_env(m1, Environment { env: mid.frames@.len() as usize }),
                            args,
                            0,
                            n,
                            f,
                            Seq::empty(),
                            m2,
                            rv,
                        ) && pushes_frame(mid, m1, mid.env.env) && match rv {
                            Err(e) => t == with_env(m2, mid.env) && r == Err::<ScriptValue, InterpreterError>(e),
                            Ok(vals) => exists|m3: Interpreter|
                                #[trigger] witness(m3) && call_rel(m2, fi as int, vals, f, m3, r) && t == with_env(m3, mid.env),
                        }
                },
                Ok(x) => t == mid && r == Err::<ScriptValue, InterpreterError>(error_of(x, InterpreterErrorType::NotCallable)),
            }
    }
}

/// Arguments `i..n` evaluated in order after the values `done`.
pub open spec fn args_rel(
    s: Interpreter,
    args: Seq<Expression>,
    i: int,
    n: int,
    fuel: nat,
    done: Seq<ScriptValue>,
    t: Interpreter,
    r: Result<Seq<ScriptValue>, InterpreterError>,
) -> bool
    decreases fuel, (3 + n - i) as nat,
{
    if i >= n || i < 0 {
        t == s && r == Ok::<Seq<ScriptValue>, InterpreterError>(done)
    } else {
        exists|mid: Interpreter, ra: ExpressionResult|
            #[trigger] witness((mid, ra)) && eval_rel(s, args[i], fuel, mid, ra) && match ra {
                Err(e) => t == mid && r == Err::<Seq<ScriptValue>, InterpreterError>(e),
                Ok(v) => args_rel(mid, args, i + 1, n, fuel, done.push(v), t, r),
            }
    }
}

/// Parameters `i..n` of `params` bound in frame `frame` to `vals`.
pub open spec fn bind_rel(s: Interpreter, frame: int, params: Seq<String>, vals: Seq<ScriptValue>, i: int, n: int, t: Interpreter) -> bool
    decreases n - i,
{
    if i >= n || i < 0 {
        t == s
    } else {
        exists|m: Interpreter| #[trigger] witness(m) && binds_in(s, m, frame, params[i]@, vals[i]) && bind_rel(m, frame, params, vals, i + 1, n, t)
    }
}

/// Calling function `fi` with values `vals` and budget `fuel`: a new child of
/// its captured frame binds the parameters, the body runs there, and what it
/// gives, `Normal` or `Return`, is the call's value.
pub open spec fn call_rel(s: Interpreter, fi: int, vals: Seq<ScriptValue>, fuel: nat, t: Interpreter, r: ExpressionResult) -> bool
    decreases fuel, 0nat,
{
    if fuel == 0 {
        t == s && r == Err::<ScriptValue, InterpreterError>(out_of_fuel_error())
    } else {
        let func = s.functions@[fi];
        let frame = s.frames@.len() as int;
        let params = (*func.params)@;
        let n = if params.len() < vals.len() { params.len() as int } else { vals.len() as int };
        exists|m1: Interpreter, m2: Interpreter, m3: Interpreter, rs: StatementResult|
            #[trigger] witness((m1, m2, m3, rs)) && exec_rel(with_env(m2, Environment { env: frame as usize }), *func.body, (fuel - 1) as nat, m3, rs)
                && pushes_frame(s, m1, func.env) && bind_rel(m1, frame, params, vals, 0, n, m2) && t == with_env(m3, s.env)
                && r == match rs {
                Ok(sv) => Ok(sv.value()),
                Err(e) => Err(e),
            }
    }
}

pub open spec fn normal_unit() -> StatementResult {
    Ok(StatementValue::Normal(ScriptValue::Unit))
}

/// Names `i..` of `names` declared in the current frame to `v`.
pub open spec fn decl_rel(s: Interpreter, names: Seq<String>, i: int, v: ScriptValue, t: Interpreter) -> bool
    decreases names.len() - i,
{
    if i >= names.len() || i < 0 {
        t == s
    } else {
        exists|m: Interpreter| #[trigger] witness(m) && binds_in(s, m, s.env.env as int, names[i]@, v) && decl_rel(m, names, i + 1, v, t)
    }
}

/// Executing `st` in state `s` with budget `fuel` ends in `t` with `r`.
pub open spec fn exec_rel(s: Interpreter, st: Statement, fuel: nat, t: Interpreter, r: StatementResult) -> bool
    decreases fuel, 2nat,
{
    if fuel == 0 {
        t == s && r == Err::<StatementValue, InterpreterError>(out_of_fuel_error())
    } else {
        let f = (fuel - 1) as nat;
        match st {
            Statement::Declaration { variables, initializer } => match initializer {
                Some(e) => exists|mid: Interpreter, ra: ExpressionResult|
                    #[trigger] witness((mid, ra)) && eval_rel(s, e, f, mid, ra) && match ra {
                        Err(x) => t == mid && r == Err::<StatementValue, InterpreterError>(x),
                        Ok(v) => decl_rel(mid, variables@, 0, v, t) && r == normal_unit(),
                    },
                None => decl_rel(s, variables@, 0, ScriptValue::Null, t) && r == normal_unit(),
            },
            Statement::Assignment { assignee, expr } => exists|mid: Interpreter, ra: ExpressionResult|
                #[trigger] witness((mid, ra)) && eval_rel(s, expr, f, mid, ra) && match ra {
                    Err(x) => t == mid && r == Err::<StatementValue, InterpreterError>(x),
                    Ok(v) => exists|rs: Result<(), InterpreterError>|
                        #[trigger] witness(rs) && assign_rel(mid, assignee, v, f, t, rs) && r == match rs {
                            Ok(()) => normal_unit(),
                            Err(x) => Err(x),
                        },
                },
            Statement::If { condition, if_body, else_body } => exists|mid: Interpreter, rc: ExpressionResult|
                #[trigger] witness((mid, rc)) && eval_rel(s, condition, f, mid, rc) && match rc {
                    Err(x) => t == mid && r == Err::<StatementValue, InterpreterError>(x),
                    Ok(c) => if c == ScriptValue::Boolean(true) {
                        exec_rel(mid, *if_body, f, t, r)
                    } else {
                        match else_body {
                            Some(b) => exec_rel(mid, *b, f, t, r),
                            None => t == mid && r == normal_unit(),
                        }
                    },
                },
            Statement::While { condition, body } => while_rel(s, condition, *body, f, 0, t, r),
            Statement::Function { name, params, body } => exists|m1: Interpreter, m2: Interpreter|
                #[trigger] witness((m1, m2)) && pushes_function(m1, m2, (*params)@, *body, s.frames@.len() as usize) && pushes_frame(
                    s,
                    m1,
                    s.env.env,
                ) && binds_in(m2, t, s.env.env as int, name@, ScriptValue::Function(s.functions@.len() as usize))
                    && r == normal_unit(),
            Statement::Expression(e) => exists|ra: ExpressionResult|
                #[trigger] witness(ra) && eval_rel(s, e, f, t, ra) && r == match ra {
                    Ok(v) => Ok(StatementValue::Normal(v)),
                    Err(x) => Err(x),
                },
            Statement::Block(stmts) => block_entry_rel(s, stmts@, f, t, r),
            Statement::Return(e) => exists|ra: ExpressionResult|
                #[trigger] witness(ra) && eval_rel(s, e, f, t, ra) && r == match ra {
                    Ok(v) => Ok(StatementValue::Return(v)),
                    Err(x) => Err(x),
                },
            Statement::Internal(b) => builtin_rel(s, b, f, t, r),
        }
    }
}

/// A block with budget `fuel`: a new child of the current frame becomes
/// current, the statements run there, and the scope handle comes back.
pub open spec fn block_entry_rel(s: Interpreter, stmts: Seq<Statement>, fuel: nat, t: Interpreter, r: StatementResult) -> bool
    decreases fuel + 1, 0nat,
{
    if fuel == 0 {
        t == s && r == Err::<StatementValue, InterpreterError>(out_of_fuel_error())
    } else {
        exists|m1: Interpreter|
            #[trigger] witness(m1) && pushes_frame(s, m1, s.env.env) && block_rel(
                s.env,
                with_env(m1, Environment { env: s.frames@.len() as usize }),
                stmts,
                0,
                fuel,
                t,
                r,
            )
    }
}

/// Statements `i..` of a block, run in `s`; the scope handle returns to `outer`.
pub open spec fn block_rel(outer: Environment, s: Interpreter, stmts: Seq<Statement>, i: int, fuel: nat, t: Interpreter, r: StatementResult) -> bool
    decreases fuel, (3 + stmts.len() - i) as nat,
{
    if i >= stmts.len() || i < 0 || fuel == 0 {
        t == with_env(s, outer) && r == normal_unit()
    } else {
        exists|m: Interpreter, rs: StatementResult|
            #[trigger] witness((m, rs)) && exec_rel(s, stmts[i], (fuel - 1) as nat, m, rs) && match rs {
                Ok(StatementValue::Normal(_)) => block_rel(outer, m, stmts, i + 1, fuel, t, r),
                _ => t == with_env(m, outer) && r == rs,
            }
    }
}

/// Rounds `k..` of `while condition body` with budget `fuel`.
pub open spec fn while_rel(s: Interpreter, condition: Expression, body: Statement, fuel: nat, k: nat, t: Interpreter, r: StatementResult) -> bool
    decreases fuel, (3 + fuel - k) as nat,
{
    if fuel == 0 || k >= fuel {
        t == s && r == Err::<StatementValue, InterpreterError>(out_of_fuel_error())
    } else {
        exists|m1: Interpreter, rc: ExpressionResult|
            #[trigger] witness((m1, rc)) && eval_rel(s, condition, (fuel - 1) as nat, m1, rc) && match rc {
                Err(x) => t == m1 && r == Err::<StatementValue, InterpreterError>(x),
                Ok(c) => if c != ScriptValue::Boolean(true) {
                    t == m1 && r == normal_unit()
                } else {
                    exists|m2: Interpreter, rb: StatementResult|
                        #[trigger] witness((m2, rb)) && exec_rel(m1, body, (fuel - 1) as nat, m2, rb) && match rb {
                            Ok(StatementValue::Normal(_)) => while_rel(m2, condition, body, fuel, k + 1, t, r),
                            _ => t == m2 && r == rb,
                        }
                },
            }
    }
}

/// Storing `v` where `target` designates, with budget `fuel`.
pub open spec fn assign_rel(s: Interpreter, target: Expression, v: ScriptValue, fuel: nat, t: Interpreter, r: Result<(), InterpreterError>) -> bool
    decreases fuel, 2nat,
{
    if fuel == 0 {
        t == s && r == Err::<(), InterpreterError>(out_of_fuel_error())
    } else {
        let f = (fuel - 1) as nat;
        match target {
            Expression::Variable(x) => if s.variable(x.identifier@) is Some {
                assigns(s, t, x.identifier@, v) && r == Ok::<(), InterpreterError>(())
            } else {
                t == s && r == Err::<(), InterpreterError>(error_of(v, InterpreterErrorType::UndefinedVariable(x.identifier)))
            },
            Expression::Access { target, field } => exists|mid: Interpreter, rt: ExpressionResult|
                #[trigger] witness((mid, rt)) && eval_rel(s, *target, f, mid, rt) && match rt {
                    Err(e) => t == mid && r == Err::<(), InterpreterError>(e),
                    Ok(ScriptValue::Object(o)) => sets_field(mid, t, o as int, field@, v) && r == Ok::<(), InterpreterError>(()),
                    Ok(x) => t == mid && r == Err::<(), InterpreterError>(error_of(x, InterpreterErrorType::NotObject)),
                },
            Expression::Index { target, index } => exists|mid: Interpreter, rt: ExpressionResult|
                #[trigger] witness((mid, rt)) && eval_rel(s, *target, f, mid, rt) && match rt {
                    Err(e) => t == mid && r == Err::<(), InterpreterError>(e),
                    Ok(ScriptValue::List(l)) => exists|m2: Interpreter, ri: ExpressionResult|
                        #[trigger] witness((m2, ri)) && eval_rel(mid, *index, f, m2, ri) && match ri {
                            Err(e) => t == m2 && r == Err::<(), InterpreterError>(e),
                            Ok(ScriptValue::Number(n)) => if 0 <= n < m2.lists@[l as int]@.len() {
                                stores_element(m2, t, l as int, n as int, v) && r == Ok::<(), InterpreterError>(())
                            } else {
                                t == m2 && r == Err::<(), InterpreterError>(
                                    error_of(ScriptValue::Number(n), InterpreterErrorType::InvalidIndex),
                                )
                            },
                            Ok(i) => t == m2 && r == Err::<(), InterpreterError>(error_of(i, InterpreterErrorType::InvalidIndex)),
                        },
                    Ok(x) => t == mid && r == Err::<(), InterpreterError>(error_of(x, InterpreterErrorType::NotIndexable)),
                },
            _ => t == s && r == Err::<(), InterpreterError>(error_of(v, InterpreterErrorType::NotAssignable)),
        }
    }
}

/// A host function run with budget `fuel`, its arguments bound in the current frame.
pub open spec fn builtin_rel(s: Interpreter, b: Builtin, fuel: nat, t: Interpreter, r: StatementResult) -> bool
    decreases fuel, 1nat,
{
    if fuel == 0 {
        t == s && r == Err::<StatementValue, InterpreterError>(out_of_fuel_error())
    } else {
        match b {
            Builtin::Print => match s.variable(seq!['t', 'a', 'r', 'g', 'e', 't']) {
                Some(v) => prints(s, t, display_spec(s, v, DISPLAY_DEPTH as nat)) && r == normal_unit(),
                None => t == s && (r matches Err(e) && e.target == ScriptValue::Null
                    && (e.err_type matches InterpreterErrorType::UndefinedVariable(n) && n@ == seq!['t', 'a', 'r', 'g', 'e', 't'])),
            },
            Builtin::MakeObject => pushes_object(s, t) && r == Ok::<StatementValue, InterpreterError>(
                StatementValue::Normal(ScriptValue::Object(s.objects@.len() as usize)),
            ),
            Builtin::MakeList => match s.variable(seq!['s', 'i', 'z', 'e']) {
                Some(ScriptValue::Number(n)) => if n < 0 {
                    t == s && (r matches Err(e) && e.target == ScriptValue::Number(n) && e.err_type is Other)
                } else {
                    pushes_list(s, t, Seq::new(n as nat, |k: int| ScriptValue::Null)) && r == Ok::<StatementValue, InterpreterError>(
                        StatementValue::Normal(ScriptValue::List(s.lists@.len() as usize)),
                    )
                },
                Some(x) => t == s && (r matches Err(e) && e.target == x && e.err_type is Other),
                None => pushes_list(s, t, Seq::empty()) && r == Ok::<StatementValue, InterpreterError>(
                    StatementValue::Normal(ScriptValue::List(s.lists@.len() as usize)),
                ),
            },
            Builtin::MapList => match s.variable(seq!['f', 'u', 'n', 'c']) {
                Some(ScriptValue::Function(fi)) => match s.variable(seq!['l', 'i', 's', 't']) {
                    Some(ScriptValue::List(li)) => map_rel(s, fi as int, li as int, 0, s.lists@[li as int]@.len() as int, (fuel - 1) as nat, Seq::empty(), t, r),
                    Some(x) => t == s && r == Err::<StatementValue, InterpreterError>(error_of(x, InterpreterErrorType::NotIndexable)),
                    None => t == s && (r matches Err(e) && e.err_type is UndefinedVariable),
                },
                Some(x) => t == s && r == Err::<StatementValue, InterpreterError>(error_of(x, InterpreterErrorType::NotCallable)),
                None => t == s && (r matches Err(e) && e.err_type is UndefinedVariable),
            },
        }
    }
}

/// Elements `k..n` of list `li` passed in order to function `fi`, each call with
/// budget `fuel`; the results after `done` make a new list.
pub open spec fn map_rel(s: Interpreter, fi: int, li: int, k: int, n: int, fuel: nat, done: Seq<ScriptValue>, t: Interpreter, r: StatementResult) -> bool
    decreases fuel, (n - k) as nat,
{
    if k >= n || k < 0 {
        pushes_list(s, t, done) && r == Ok::<StatementValue, InterpreterError>(
            StatementValue::Normal(ScriptValue::List(s.lists@.len() as usize)),
        )
    } else {
        exists|m: Interpreter, rv: ExpressionResult|
            #[trigger] witness((m, rv)) && call_rel(s, fi, seq![s.lists@[li]@[k]], fuel, m, rv) && match rv {
                Err(e) => t == m && r == Err::<StatementValue, InterpreterError>(e),
                Ok(v) => map_rel(m, fi, li, k + 1, n, fuel, done.push(v), t, r),
            }
    }
}

/// Running statements `i..` of a program in order, stopping at the first error.
pub open spec fn program_rel(s: Interpreter, program: Seq<Statement>, i: int, fuel: nat, t: Interpreter, r: Result<(), InterpreterError>) -> bool
    decreases program.len() - i,
{
    if i >= program.len() || i < 0 {
        t == s && r == Ok::<(), InterpreterError>(())
    } else {
        exists|m: Interpreter, rs: StatementResult|
            #[trigger] witness((m, rs)) && exec_rel(s, program[i], fuel, m, rs) && match rs {
                Err(e) => t == m && r == Err::<(), InterpreterError>(e),
                Ok(_) => program_rel(m, program, i + 1, fuel, t, r),
            }
    }
}

} // verus!
