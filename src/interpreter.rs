use vstd::prelude::*;
use vstd::string::*;

use std::rc::Rc;

use crate::display::{decimal, number_text};
use crate::environment::{Env, Environment, frame_get, frames_wf, lookup, lemma_defining_frame};
use crate::errors::{InterpreterError, InterpreterErrorType};
use crate::expression::{BinaryOp, Expression, Literal};
use crate::function::Function;
use crate::object::Object;
use crate::statement::{Builtin, Statement};
use crate::semantics::{
    program_rel,
    builtin_rel, map_rel,
    assign_rel, block_entry_rel, block_rel, decl_rel, while_rel,
    witness,
    numeric_result, compare_result,
    display_spec, field_texts, list_texts, eval_rel, exec_rel, binary_rel, call_expr_rel, call_rel, args_rel, bind_rel,
    with_env,
    assigns, binds_in, pushes_frame, pushes_function, pushes_list, pushes_object, pushes_string, sets_field,
    stores_element, stores_field, method_steps,
};
use crate::value::{ScriptValue, StatementValue, compare, numeric_spec};

verus! {

/// The evaluator and the heap it works on: scope frames, functions, objects,
/// lists and strings live in arenas and values refer to them by index.
pub struct Interpreter {
    pub env: Environment,
    pub frames: Vec<Env>,
    pub functions: Vec<Function>,
    pub objects: Vec<Object>,
    pub lists: Vec<Vec<ScriptValue>>,
    pub strings: Vec<String>,
    /// Lines written by `print`, in order.
    pub output: Vec<String>,
}

pub type ExpressionResult = Result<ScriptValue, InterpreterError>;

pub type StatementResult = Result<StatementValue, InterpreterError>;

impl Interpreter {
    /// `v` refers only to things that exist in this heap.
    pub open spec fn valid(&self, v: ScriptValue) -> bool {
        match v {
            ScriptValue::Str(i) => i < self.strings@.len(),
            ScriptValue::Function(i) => i < self.functions@.len(),
            ScriptValue::Object(i) => i < self.objects@.len(),
            ScriptValue::List(i) => i < self.lists@.len(),
            _ => true,
        }
    }

    /// The heap is closed: every parent link goes to an earlier frame, and every
    /// value held anywhere refers to something that exists.
    pub open spec fn wf(&self) -> bool {
        &&& frames_wf(self.frames@)
        &&& self.env.env < self.frames@.len()
        &&& forall|f: int, n: Seq<char>|
            0 <= f < self.frames@.len() && (#[trigger] frame_get(self.frames@[f].variables@, n)) is Some
                ==> self.valid(frame_get(self.frames@[f].variables@, n)->Some_0)
        &&& forall|i: int| 0 <= i < self.functions@.len() ==> (#[trigger] self.functions@[i]).env < self.frames@.len()
        &&& forall|o: int, n: Seq<char>|
            0 <= o < self.objects@.len() && (#[trigger] frame_get(self.objects@[o].fields@, n)) is Some
                ==> self.valid(frame_get(self.objects@[o].fields@, n)->Some_0)
        &&& forall|l: int, k: int|
            0 <= l < self.lists@.len() && 0 <= k < self.lists@[l]@.len() ==> self.valid(#[trigger] self.lists@[l]@[k])
    }

    /// `next` is this heap after more work: arenas only grow, functions and
    /// strings never change, and lists keep their lengths.
    pub open spec fn extends(&self, next: &Interpreter) -> bool {
        &&& self.frames@.len() <= next.frames@.len()
        &&& self.functions@.len() <= next.functions@.len()
        &&& forall|i: int| 0 <= i < self.functions@.len() ==> #[trigger] next.functions@[i] == self.functions@[i]
        &&& self.objects@.len() <= next.objects@.len()
        &&& self.lists@.len() <= next.lists@.len()
        &&& forall|i: int| 0 <= i < self.lists@.len() ==> (#[trigger] next.lists@[i])@.len() == self.lists@[i]@.len()
        &&& self.strings@.len() <= next.strings@.len()
        &&& forall|i: int| 0 <= i < self.strings@.len() ==> #[trigger] next.strings@[i] == self.strings@[i]
        &&& frames_persist(self.frames@, next.frames@)
    }

    /// What every evaluation step guarantees: the heap stays closed, it only
    /// grows, and the scope handle is back where it was (every `enter` was
    /// matched by an `exit`, on every path).
    pub open spec fn step(&self, next: &Interpreter) -> bool {
        &&& next.wf()
        &&& next.env == self.env
        &&& self.extends(next)
    }

    /// The value of the variable `name` in the current scope.
    pub open spec fn variable(&self, name: Seq<char>) -> Option<ScriptValue> {
        lookup(self.frames@, self.env.env as int, name)
    }
}

/// Frames are never dropped or relinked, and a name bound in a frame stays
/// bound there (its value may change).
pub open spec fn frames_persist(a: Seq<Env>, b: Seq<Env>) -> bool {
    &&& a.len() <= b.len()
    &&& forall|f: int| 0 <= f < a.len() ==> (#[trigger] b[f]).parent == a[f].parent
    &&& forall|f: int, n: Seq<char>|
        0 <= f < a.len() && (#[trigger] frame_get(a[f].variables@, n)) is Some ==> frame_get(
            b[f].variables@,
            n,
        ) is Some
}

pub proof fn lemma_extends_trans(a: &Interpreter, b: &Interpreter, c: &Interpreter)
    requires
        a.extends(b),
        b.extends(c),
    ensures
        a.extends(c),
{
    assert forall|f: int, n: Seq<char>|
        0 <= f < a.frames@.len() && (#[trigger] frame_get(a.frames@[f].variables@, n)) is Some implies frame_get(
        c.frames@[f].variables@,
        n,
    ) is Some by {
        assert(frame_get(b.frames@[f].variables@, n) is Some);
    }
}

proof fn lemma_lookup_valid(s: &Interpreter, f: int, name: Seq<char>)
    requires
        s.wf(),
        0 <= f < s.frames@.len(),
    ensures
        lookup(s.frames@, f, name) is Some ==> s.valid(lookup(s.frames@, f, name)->Some_0),
{
    lemma_defining_frame(s.frames@, f, name);
}

impl Interpreter {
    /// Binds `name` to `v` in the current frame.
    fn declare(&mut self, name: String, v: ScriptValue)
        requires
            old(self).wf(),
            old(self).valid(v),
        ensures
            old(self).step(final(self)),
            final(self).functions == old(self).functions,
            final(self).objects == old(self).objects,
            final(self).lists == old(self).lists,
            final(self).strings == old(self).strings,
            final(self).output == old(self).output,
            final(self).frames@.len() == old(self).frames@.len(),
            forall|i: int|
                0 <= i < old(self).frames@.len() && i != old(self).env.env ==> #[trigger] final(self).frames@[i]
                    == old(self).frames@[i],
            final(self).frames@[old(self).env.env as int].parent == old(self).frames@[old(self).env.env as int].parent,
            final(self).variable(name@) == Some(v),
            forall|n: Seq<char>| n != name@ ==> #[trigger] final(self).variable(n) == old(self).variable(n),
            forall|n: Seq<char>|
                #[trigger] frame_get(final(self).frames@[old(self).env.env as int].variables@, n) == if n == name@ {
                    Some(v)
                } else {
                    frame_get(old(self).frames@[old(self).env.env as int].variables@, n)
                },
            binds_in(*old(self), *final(self), old(self).env.env as int, name@, v),
    {
        self.env.put_new(&mut self.frames, name, v);
        proof {
            let e = self.env.env as int;
            assert forall|f: int, n: Seq<char>|
                0 <= f < self.frames@.len() && (#[trigger] frame_get(self.frames@[f].variables@, n)) is Some
                implies self.valid(frame_get(self.frames@[f].variables@, n)->Some_0) by {
                if f != e {
                    assert(self.frames@[f] == old(self).frames@[f]);
                }
            }
        }
    }

    /// Overwrites `name` in the nearest frame that binds it; false, and nothing
    /// changed, when it is not bound.
    fn assign_variable(&mut self, name: &String, v: ScriptValue) -> (r: bool)
        requires
            old(self).wf(),
            old(self).valid(v),
        ensures
            r == (old(self).variable(name@) is Some),
            r ==> final(self).variable(name@) == Some(v),
            forall|n: Seq<char>| n != name@ ==> #[trigger] final(self).variable(n) == old(self).variable(n),
            final(self).frames@.len() == old(self).frames@.len(),
            old(self).step(final(self)),
            !r ==> final(self).frames@ == old(self).frames@,
            final(self).functions == old(self).functions,
            final(self).objects == old(self).objects,
            final(self).lists == old(self).lists,
            final(self).strings == old(self).strings,
            final(self).output == old(self).output,
            r ==> assigns(*old(self), *final(self), name@, v),
            !r ==> *final(self) == *old(self),
    {
        let ghost d = crate::environment::defining_frame(self.frames@, self.env.env as int, name@);
        proof {
            lemma_defining_frame(self.frames@, self.env.env as int, name@);
        }
        let r = self.env.put(&mut self.frames, name, v);
        proof {
            if r {
                let d = d->Some_0;
                assert forall|f: int, n: Seq<char>|
                    0 <= f < self.frames@.len() && (#[trigger] frame_get(self.frames@[f].variables@, n)) is Some
                    implies self.valid(frame_get(self.frames@[f].variables@, n)->Some_0) by {
                    if f != d {
                        assert(self.frames@[f] == old(self).frames@[f]);
                    }
                }
            } else {
                assert(self.frames@ =~= old(self).frames@);
            }
        }
        r
    }

    /// Stores a new string and returns its handle.
    fn new_string(&mut self, text: String) -> (r: ScriptValue)
        requires
            old(self).wf(),
        ensures
            old(self).step(final(self)),
            r == ScriptValue::Str(old(self).strings@.len() as usize),
            final(self).strings@ == old(self).strings@.push(text),
            final(self).valid(r),
            final(self).output == old(self).output,
            pushes_string(*old(self), *final(self), text@),
    {
        let i = self.strings.len();
        self.strings.push(text);
        ScriptValue::Str(i)
    }

    /// Stores a new list and returns its handle.
    fn new_list(&mut self, items: Vec<ScriptValue>) -> (r: ScriptValue)
        requires
            old(self).wf(),
            forall|k: int| 0 <= k < items@.len() ==> old(self).valid(#[trigger] items@[k]),
        ensures
            old(self).step(final(self)),
            r == ScriptValue::List(old(self).lists@.len() as usize),
            final(self).lists@ == old(self).lists@.push(items),
            final(self).valid(r),
            final(self).output == old(self).output,
            pushes_list(*old(self), *final(self), items@),
    {
        let i = self.lists.len();
        self.lists.push(items);
        proof {
            assert forall|l: int, k: int|
                0 <= l < self.lists@.len() && 0 <= k < self.lists@[l]@.len() implies self.valid(#[trigger] self.lists@[l]@[k]) by {
                if l < i {
                    assert(self.lists@[l] == old(self).lists@[l]);
                }
            }
        }
        ScriptValue::List(i)
    }

    /// Stores a new empty object and returns its handle.
    fn new_object(&mut self) -> (r: ScriptValue)
        requires
            old(self).wf(),
        ensures
            old(self).step(final(self)),
            r == ScriptValue::Object(old(self).objects@.len() as usize),
            final(self).objects@.len() == old(self).objects@.len() + 1,
            final(self).objects@.last().fields@.len() == 0,
            final(self).valid(r),
            final(self).output == old(self).output,
            pushes_object(*old(self), *final(self)),
    {
        let i = self.objects.len();
        self.objects.push(Object::new());
        proof {
            assert forall|o: int, n: Seq<char>|
                0 <= o < self.objects@.len() && (#[trigger] frame_get(self.objects@[o].fields@, n)) is Some
                implies self.valid(frame_get(self.objects@[o].fields@, n)->Some_0) by {
                if o < i {
                    assert(self.objects@[o] == old(self).objects@[o]);
                    assert(frame_get(old(self).objects@[o].fields@, n) == frame_get(self.objects@[o].fields@, n));
                    assert(old(self).valid(frame_get(old(self).objects@[o].fields@, n)->Some_0));
                } else {
                    assert(self.objects@[o].fields@.len() == 0);
                    assert(frame_get(self.objects@[o].fields@, n) is None);
                }
            }
        }
        ScriptValue::Object(i)
    }

    /// Stores a new function that captures frame `env`.
    fn new_function(&mut self, params: Rc<Vec<String>>, body: Rc<Statement>, env: usize) -> (r: ScriptValue)
        requires
            old(self).wf(),
            env < old(self).frames@.len(),
        ensures
            old(self).step(final(self)),
            r == ScriptValue::Function(old(self).functions@.len() as usize),
            final(self).functions@.len() == old(self).functions@.len() + 1,
            final(self).functions@.last().env == env,
            final(self).valid(r),
            final(self).output == old(self).output,
            final(self).objects == old(self).objects,
            final(self).lists == old(self).lists,
            final(self).strings == old(self).strings,
            final(self).frames == old(self).frames,
            forall|i: int| 0 <= i < old(self).functions@.len() ==> #[trigger] final(self).functions@[i] == old(self).functions@[i],
            final(self).functions@.last().params == params,
            final(self).functions@.last().body == body,
            pushes_function(*old(self), *final(self), (*params)@, *body, env),
    {
        let i = self.functions.len();
        self.functions.push(Function::new(params, body, env));
        ScriptValue::Function(i)
    }

    /// A fresh frame whose parent is `parent`.
    fn new_frame(&mut self, parent: usize) -> (r: usize)
        requires
            old(self).wf(),
            parent < old(self).frames@.len(),
        ensures
            old(self).step(final(self)),
            r == old(self).frames@.len(),
            final(self).frames@.len() == old(self).frames@.len() + 1,
            final(self).frames@[r as int].parent == Some(parent),
            final(self).frames@[r as int].variables@.len() == 0,
            forall|i: int| 0 <= i < old(self).frames@.len() ==> #[trigger] final(self).frames@[i] == old(self).frames@[i],
            final(self).functions == old(self).functions,
            final(self).output == old(self).output,
            final(self).objects == old(self).objects,
            final(self).lists == old(self).lists,
            final(self).strings == old(self).strings,
            pushes_frame(*old(self), *final(self), parent),
    {
        let mut h = Environment { env: parent };
        h.enter(&mut self.frames);
        proof {
            assert forall|f: int, n: Seq<char>|
                0 <= f < self.frames@.len() && (#[trigger] frame_get(self.frames@[f].variables@, n)) is Some
                implies self.valid(frame_get(self.frames@[f].variables@, n)->Some_0) by {
                if f < old(self).frames@.len() {
                    assert(self.frames@[f] == old(self).frames@[f]);
                }
            }
        }
        h.env
    }

    /// Binds `name` to `v` in frame `f`, which need not be the current one.
    fn declare_in(&mut self, f: usize, name: String, v: ScriptValue)
        requires
            old(self).wf(),
            old(self).valid(v),
            f < old(self).frames@.len(),
        ensures
            old(self).step(final(self)),
            final(self).frames@.len() == old(self).frames@.len(),
            final(self).functions == old(self).functions,
            final(self).output == old(self).output,
            forall|i: int| 0 <= i < old(self).frames@.len() && i != f ==> #[trigger] final(self).frames@[i] == old(self).frames@[i],
            forall|n: Seq<char>|
                #[trigger] frame_get(final(self).frames@[f as int].variables@, n) == if n == name@ {
                    Some(v)
                } else {
                    frame_get(old(self).frames@[f as int].variables@, n)
                },
            final(self).objects == old(self).objects,
            final(self).lists == old(self).lists,
            final(self).strings == old(self).strings,
            final(self).frames@[f as int].parent == old(self).frames@[f as int].parent,
            binds_in(*old(self), *final(self), f as int, name@, v),
    {
        let h = Environment { env: f };
        h.put_new(&mut self.frames, name, v);
        proof {
            assert forall|g: int, n: Seq<char>|
                0 <= g < self.frames@.len() && (#[trigger] frame_get(self.frames@[g].variables@, n)) is Some
                implies self.valid(frame_get(self.frames@[g].variables@, n)->Some_0) by {
                if g != f {
                    assert(self.frames@[g] == old(self).frames@[g]);
                }
            }
        }
    }
}

/// The name under which a method sees the object it belongs to.
pub open spec fn self_name() -> Seq<char> {
    seq!['s', 'e', 'l', 'f']
}

impl Interpreter {
    /// Sets field `key` of object `o`. A function stored this way is first bound
    /// to the object: a copy of it captures a new child of its frame in which
    /// `self` names the object.
    pub fn set_field(&mut self, o: usize, key: String, v: ScriptValue)
        requires
            old(self).wf(),
            old(self).valid(v),
            o < old(self).objects@.len(),
        ensures
            old(self).step(final(self)),
            final(self).output == old(self).output,
            forall|n: Seq<char>|
                n != key@ ==> #[trigger] frame_get(final(self).objects@[o as int].fields@, n) == frame_get(
                    old(self).objects@[o as int].fields@,
                    n,
                ),
            forall|i: int|
                0 <= i < old(self).objects@.len() && i != o ==> #[trigger] final(self).objects@[i]
                    == old(self).objects@[i],
            !(v is Function) ==> frame_get(final(self).objects@[o as int].fields@, key@) == Some(v),
            v matches ScriptValue::Function(fi) ==> ({
                let m = old(self).functions@.len();
                let frame = old(self).frames@.len();
                &&& frame_get(final(self).objects@[o as int].fields@, key@) == Some(ScriptValue::Function(m as usize))
                &&& final(self).functions@.len() == m + 1
                &&& final(self).functions@[m as int].env == frame
                &&& final(self).functions@[m as int].params == old(self).functions@[fi as int].params
                &&& final(self).functions@[m as int].body == old(self).functions@[fi as int].body
                &&& final(self).frames@[frame as int].parent == Some(old(self).functions@[fi as int].env)
                &&& frame_get(final(self).frames@[frame as int].variables@, self_name()) == Some(
                    ScriptValue::Object(o),
                )
            }),
            sets_field(*old(self), *final(self), o as int, key@, v),
    {
        let ghost s0 = *self;
        let ghost mut m1 = *self;
        let ghost mut m2 = *self;
        let stored = match v {
            ScriptValue::Function(fi) => {
                let captured = self.functions[fi].env;
                let f = self.new_frame(captured);
                proof {
                    reveal_strlit("self");
                }
                let ghost s1 = *self;
                proof {
                    m1 = s1;
                }
                let name = "self".to_owned();
                proof {
                    assert(name@ =~= self_name());
                }
                self.declare_in(f, name, ScriptValue::Object(o));
                let params = Rc::clone(&self.functions[fi].params);
                let body = Rc::clone(&self.functions[fi].body);
                let ghost s2 = *self;
                proof {
                    m2 = s2;
                }
                let r = self.new_function(params, body, f);
                proof {
                    lemma_extends_trans(&s0, &s1, &s2);
                    lemma_extends_trans(&s0, &s2, self);
                    assert(method_steps(s0, m1, m2, *self, fi as int, o as int));
                }
                r
            },
            _ => v,
        };
        let ghost s3 = *self;
        let mut obj = Object::new();
        self.objects.set_and_swap(o, &mut obj);
        obj.set(key, stored);
        self.objects.set_and_swap(o, &mut obj);
        proof {
            assert forall|i: int, n: Seq<char>|
                0 <= i < self.objects@.len() && (#[trigger] frame_get(self.objects@[i].fields@, n)) is Some
                implies self.valid(frame_get(self.objects@[i].fields@, n)->Some_0) by {
                if i != o {
                    assert(self.objects@[i] == s3.objects@[i]);
                    assert(frame_get(s3.objects@[i].fields@, n) == frame_get(self.objects@[i].fields@, n));
                    assert(s3.valid(frame_get(s3.objects@[i].fields@, n)->Some_0));
                } else if n != key@ {
                    assert(frame_get(s3.objects@[i].fields@, n) == frame_get(self.objects@[i].fields@, n));
                    assert(s3.valid(frame_get(s3.objects@[i].fields@, n)->Some_0));
                }
            }
            assert(stores_field(s3, *self, o as int, key@, stored));
            if let ScriptValue::Function(fi) = v {
                assert(method_steps(s0, m1, m2, s3, fi as int, o as int));
                assert(witness((m1, m2, s3)));
            }
        }
    }

    /// Sets element `k` of list `l`.
    fn set_element(&mut self, l: usize, k: usize, v: ScriptValue)
        requires
            old(self).wf(),
            old(self).valid(v),
            l < old(self).lists@.len(),
            k < old(self).lists@[l as int]@.len(),
        ensures
            old(self).step(final(self)),
            final(self).output == old(self).output,
            final(self).lists@ == old(self).lists@.update(l as int, final(self).lists@[l as int]),
            final(self).lists@[l as int]@ == old(self).lists@[l as int]@.update(k as int, v),
            stores_element(*old(self), *final(self), l as int, k as int, v),
    {
        let mut items: Vec<ScriptValue> = Vec::new();
        self.lists.set_and_swap(l, &mut items);
        items.set(k, v);
        self.lists.set_and_swap(l, &mut items);
        proof {
            assert forall|i: int, j: int|
                0 <= i < self.lists@.len() && 0 <= j < self.lists@[i]@.len() implies self.valid(#[trigger] self.lists@[i]@[j]) by {
                if i != l {
                    assert(self.lists@[i] == old(self).lists@[i]);
                } else if j != k {
                    assert(self.lists@[i]@[j] == old(self).lists@[i]@[j]);
                }
            }
            assert(self.lists@ =~= old(self).lists@.update(l as int, self.lists@[l as int]));
        }
    }
}

pub open spec fn result_valid(s: &Interpreter, r: ExpressionResult) -> bool {
    r is Ok ==> s.valid(r->Ok_0)
}

pub open spec fn statement_valid(s: &Interpreter, r: StatementResult) -> bool {
    r is Ok ==> s.valid(r->Ok_0.value())
}

/// Calling a variable that holds something other than a function fails with
/// `NotCallable`, naming that value.
pub open spec fn call_law(s: &Interpreter, callee: &Expression, r: ExpressionResult) -> bool {
    match callee {
        Expression::Variable(v) => match s.variable(v.identifier@) {
            Some(x) => !(x is Function) ==> (r matches Err(e) && e.err_type is NotCallable && e.target == x),
            None => true,
        },
        _ => true,
    }
}

/// Indexing a list held in a variable with a number held in a variable: an
/// offset in range gives that element; any other number, or an index that is
/// not a number, fails with `InvalidIndex`; a target that is not a list fails
/// with `NotIndexable`.
pub open spec fn index_law(s: &Interpreter, target: &Expression, index: &Expression, r: ExpressionResult) -> bool {
    match (target, index) {
        (Expression::Variable(t), Expression::Variable(i)) => match (s.variable(t.identifier@), s.variable(i.identifier@)) {
            (Some(ScriptValue::List(l)), Some(ScriptValue::Number(n))) => if 0 <= n < s.lists@[l as int]@.len() {
                r == Ok::<ScriptValue, InterpreterError>(s.lists@[l as int]@[n as int])
            } else {
                r matches Err(e) && e.err_type is InvalidIndex
            },
            (Some(ScriptValue::List(_)), Some(x)) => r matches Err(e) && e.err_type is InvalidIndex,
            (Some(x), _) => !(x is List) ==> (r matches Err(e) && e.err_type is NotIndexable),
            _ => true,
        },
        _ => true,
    }
}

/// Reading a field of a variable: an object gives the field's value or fails
/// with `PropertyNotFound`; anything else fails with `NotObject`.
pub open spec fn access_law(s: &Interpreter, target: &Expression, field: Seq<char>, r: ExpressionResult) -> bool {
    match target {
        Expression::Variable(t) => match s.variable(t.identifier@) {
            Some(ScriptValue::Object(o)) => match frame_get(s.objects@[o as int].fields@, field) {
                Some(v) => r == Ok::<ScriptValue, InterpreterError>(v),
                None => r matches Err(e) && e.err_type is PropertyNotFound,
            },
            Some(x) => r matches Err(e) && e.err_type is NotObject && e.target == x,
            None => true,
        },
        _ => true,
    }
}

/// The operands' values, where both operands are bound variables.
pub open spec fn operand_values(s: &Interpreter, left: &Expression, right: &Expression) -> Option<(ScriptValue, ScriptValue)> {
    match (left, right) {
        (Expression::Variable(a), Expression::Variable(b)) => match (s.variable(a.identifier@), s.variable(b.identifier@)) {
            (Some(x), Some(y)) => Some((x, y)),
            _ => None,
        },
        _ => None,
    }
}

pub open spec fn arithmetic_outcome(x: ScriptValue, y: ScriptValue, op: BinaryOp, r: ExpressionResult) -> bool {
    match numeric_spec(x, y, op) {
        Some(n) => r == Ok::<ScriptValue, InterpreterError>(ScriptValue::Number(n)),
        None => r matches Err(e) && e.err_type is InvalidOperation,
    }
}

/// Binary operators on two bound variables: arithmetic gives the exact number
/// where it is defined and fits, comparison gives the relation where it is
/// defined, and anything else fails with `InvalidOperation`.
pub open spec fn binary_law(s: &Interpreter, expr: &Expression, r: ExpressionResult) -> bool {
    match expr {
        Expression::Addition { left, right, operator } => match operand_values(s, left, right) {
            Some((x, y)) => arithmetic_outcome(x, y, *operator, r),
            None => true,
        },
        Expression::Multiplication { left, right, operator } => match operand_values(s, left, right) {
            Some((x, y)) => arithmetic_outcome(x, y, *operator, r),
            None => true,
        },
        Expression::Condition { left, right, operator } => match operand_values(s, left, right) {
            Some((x, y)) => match compare(*operator, x, y) {
                Some(b) => r == Ok::<ScriptValue, InterpreterError>(ScriptValue::Boolean(b)),
                None => r matches Err(e) && e.err_type is InvalidOperation,
            },
            None => true,
        },
        _ => true,
    }
}

/// Where the callee is a variable that holds a value, that value is a function.
pub open spec fn callee_gives_function(s: &Interpreter, callee: &Expression) -> bool {
    match callee {
        Expression::Variable(v) => match s.variable(v.identifier@) {
            Some(x) => x is Function,
            None => true,
        },
        _ => true,
    }
}

/// A function declaration binds its name in the current frame to a new function
/// whose captured frame is a new, empty child of the current frame.
pub open spec fn declaration_law(s: &Interpreter, t: &Interpreter, name: Seq<char>, r: StatementResult) -> bool {
    let m = s.functions@.len();
    let cap = t.functions@[m as int].env as int;
    &&& r == Ok::<StatementValue, InterpreterError>(StatementValue::Normal(ScriptValue::Unit))
    &&& t.functions@.len() == m + 1
    &&& t.variable(name) == Some(ScriptValue::Function(m as usize))
    &&& t.frames@[cap].parent == Some(s.env.env)
    &&& t.frames@[cap].variables@.len() == 0
}

pub open spec fn out_of_fuel(r: ExpressionResult) -> bool {
    r matches Err(e) && e.err_type is OutOfFuel
}

impl Interpreter {
    /// Evaluates an expression in the current scope. `fuel` bounds the depth of
    /// evaluation and the iterations of each loop; when it runs out the result
    /// is `OutOfFuel`.
    pub fn evaluate(&mut self, expr: &Expression, fuel: u64) -> (r: ExpressionResult)
        requires
            old(self).wf(),
        ensures
            old(self).step(final(self)),
            result_valid(final(self), r),
            fuel == 0 ==> out_of_fuel(r),
            fuel > 0 ==> match expr {
                Expression::Variable(v) => *final(self) == *old(self) && match old(self).variable(v.identifier@) {
                    Some(x) => r == Ok::<ScriptValue, InterpreterError>(x),
                    None => r matches Err(e) && e.err_type matches InterpreterErrorType::UndefinedVariable(n)
                        && n@ == v.identifier@,
                },
                Expression::Value(Literal::Number(n)) => r == Ok::<ScriptValue, InterpreterError>(ScriptValue::Number(*n)),
                Expression::Value(Literal::Boolean(b)) => r == Ok::<ScriptValue, InterpreterError>(ScriptValue::Boolean(*b)),
                Expression::Value(Literal::Null) => r == Ok::<ScriptValue, InterpreterError>(ScriptValue::Null),
                _ => true,
            },
            fuel > 2 ==> (expr matches Expression::Call { callee, .. } ==> call_law(old(self), callee, r)),
            fuel > 1 ==> (expr matches Expression::Index { target, index } ==> index_law(old(self), target, index, r)),
            fuel > 1 ==> binary_law(old(self), expr, r),
            fuel > 1 ==> (expr matches Expression::Access { target, field } ==> access_law(old(self), target, field@, r)),
            eval_rel(*old(self), *expr, fuel as nat, *final(self), r),
        decreases fuel, 2nat,
    {
        if fuel == 0 {
            return Err(InterpreterError::new(&ScriptValue::Null, InterpreterErrorType::OutOfFuel));
        }
        match expr {
            Expression::Value(lit) => match lit {
                Literal::Number(n) => Ok(ScriptValue::Number(*n)),
                Literal::Str(text) => Ok(self.new_string(text.clone())),
                Literal::Boolean(b) => Ok(ScriptValue::Boolean(*b)),
                Literal::Null => Ok(ScriptValue::Null),
            },
            Expression::Variable(v) => {
                proof {
                    lemma_lookup_valid(self, self.env.env as int, v.identifier@);
                }
                match self.env.get(&self.frames, &v.identifier) {
                    Some(x) => Ok(x),
                    None => Err(
                        InterpreterError::new(
                            &ScriptValue::Null,
                            InterpreterErrorType::UndefinedVariable(v.identifier.clone()),
                        ),
                    ),
                }
            },
            Expression::Multiplication { left, right, operator } => self.evaluate_binary(left, right, *operator, true, fuel),
            Expression::Addition { left, right, operator } => self.evaluate_binary(left, right, *operator, true, fuel),
            Expression::Condition { left, right, operator } => self.evaluate_binary(left, right, *operator, false, fuel),
            Expression::Call { callee, args } => self.evaluate_call(callee, args, fuel - 1),
            Expression::Index { target, index } => {
                let ghost s0 = *self;
                let rt = self.evaluate(target, fuel - 1);
                let ghost s1 = *self;
                proof {
                    assert(eval_rel(s0, **target, (fuel as nat - 1) as nat, s1, rt));
                    assert(witness((s1, rt)));
                }
                let t = rt?;
                match t {
                    ScriptValue::List(l) => {
                        let ri = self.evaluate(index, fuel - 1);
                        proof {
                            lemma_extends_trans(&s0, &s1, self);
                            assert(eval_rel(s1, **index, (fuel as nat - 1) as nat, *self, ri));
                            assert(witness(ri));
                        }
                        let i = ri?;
                        match i {
                            ScriptValue::Number(n) => {
                                if n >= 0 && (n as u64) < (self.lists[l].len() as u64) {
                                    Ok(self.lists[l][n as usize])
                                } else {
                                    Err(InterpreterError::new(&i, InterpreterErrorType::InvalidIndex))
                                }
                            },
                            _ => Err(InterpreterError::new(&i, InterpreterErrorType::InvalidIndex)),
                        }
                    },
                    _ => Err(InterpreterError::new(&t, InterpreterErrorType::NotIndexable)),
                }
            },
            Expression::Access { target, field } => {
                let ghost s0 = *self;
                let rt = self.evaluate(target, fuel - 1);
                proof {
                    assert(eval_rel(s0, **target, (fuel as nat - 1) as nat, *self, rt));
                    assert(witness(rt));
                }
                let t = rt?;
                match t {
                    ScriptValue::Object(o) => match self.objects[o].get(field) {
                        Some(x) => Ok(x),
                        None => Err(InterpreterError::new(&t, InterpreterErrorType::PropertyNotFound)),
                    },
                    _ => Err(InterpreterError::new(&t, InterpreterErrorType::NotObject)),
                }
            },
        }
    }

    /// Evaluates both operands, left first, then applies the operator:
    /// arithmetic where `arithmetic` holds, comparison otherwise.
    fn evaluate_binary(
        &mut self,
        left: &Expression,
        right: &Expression,
        operator: BinaryOp,
        arithmetic: bool,
        fuel: u64,
    ) -> (r: ExpressionResult)
        requires
            old(self).wf(),
            fuel > 0,
        ensures
            old(self).step(final(self)),
            result_valid(final(self), r),
            binary_rel(*old(self), *left, *right, operator, arithmetic, fuel as nat, *final(self), r),
            fuel > 1 ==> (operand_values(old(self), left, right) matches Some((x, y)) ==> r == if arithmetic {
                numeric_result(x, y, operator)
            } else {
                compare_result(x, y, operator)
            }),
        decreases fuel, 1nat,
    {
        let ghost s0 = *self;
        let ra = self.evaluate(left, fuel - 1);
        let ghost s1 = *self;
        proof {
            assert(eval_rel(s0, *left, (fuel as nat - 1) as nat, s1, ra));
        }
        let a = match ra {
            Ok(a) => a,
            Err(e) => {
                proof {
                    let f1 = (fuel as nat - 1) as nat;
                    assert(eval_rel(s0, *left, f1, s1, ra) && match ra {
                        Err(e) => s1 == s1 && ra == Err::<ScriptValue, InterpreterError>(e),
                        Ok(a) => false,
                    });
                    assert(witness((s1, ra)));
                    assert(binary_rel(s0, *left, *right, operator, arithmetic, fuel as nat, s1, ra));
                }
                return Err(e);
            },
        };
        let rb = self.evaluate(right, fuel - 1);
        proof {
            lemma_extends_trans(&s0, &s1, self);
            assert(eval_rel(s1, *right, (fuel as nat - 1) as nat, *self, rb));
        }
        let r = match rb {
            Ok(b) => if arithmetic {
                a.numeric(b, operator)
            } else {
                a.boolean(b, operator)
            },
            Err(e) => Err(e),
        };
        proof {
            assert(witness((s1, ra)));
            assert(witness(rb));
        }
        r
    }

    /// Evaluates `callee(args)`: the callee first, then, in a bracketing scope
    /// of the caller, one argument per parameter in order; extra arguments are
    /// not evaluated and parameters without an argument stay unbound.
    fn evaluate_call(&mut self, callee: &Expression, args: &Vec<Expression>, fuel: u64) -> (r: ExpressionResult)
        requires
            old(self).wf(),
        ensures
            old(self).step(final(self)),
            result_valid(final(self), r),
            fuel == 0 ==> out_of_fuel(r),
            fuel > 1 ==> call_law(old(self), callee, r),
            call_expr_rel(*old(self), *callee, args@, fuel as nat, *final(self), r),
        decreases fuel, 0nat,
    {
        if fuel == 0 {
            return Err(InterpreterError::new(&ScriptValue::Null, InterpreterErrorType::OutOfFuel));
        }
        let ghost s0 = *self;
        let rc = self.evaluate(callee, fuel - 1);
        let ghost s1 = *self;
        proof {
            assert(eval_rel(s0, *callee, (fuel as nat - 1) as nat, s1, rc));
            assert(witness((s1, rc)));
        }
        let t = rc?;
        let fi = match t {
            ScriptValue::Function(fi) => fi,
            _ => {
                return Err(InterpreterError::new(&t, InterpreterErrorType::NotCallable));
            },
        };
        let saved = self.env;
        let bracket = self.new_frame(saved.env);
        let ghost m1 = *self;
        self.env = Environment { env: bracket };
        proof {
            assert(*self == with_env(m1, Environment { env: bracket }));
        }
        let ghost start = *self;
        let n_params = self.functions[fi].params.len();
        let n = if n_params < args.len() {
            n_params
        } else {
            args.len()
        };
        let mut values: Vec<ScriptValue> = Vec::new();
        let mut i: usize = 0;
        while i < n
            invariant
                self.wf(),
                s1.extends(self),
                s0.extends(&s1),
                s0.env == saved,
                s0 == *old(self),
                fuel > 1 ==> callee_gives_function(&s0, callee),
                fuel > 0,
                self.env.env == bracket,
                saved == s1.env,
                saved.env < self.frames@.len(),
                fi < self.functions@.len(),
                n <= args@.len(),
                i <= n,
                values@.len() == i,
                forall|k: int| 0 <= k < values@.len() ==> self.valid(#[trigger] values@[k]),
                rc == Ok::<ScriptValue, InterpreterError>(ScriptValue::Function(fi)),
                eval_rel(s0, *callee, (fuel as nat - 1) as nat, s1, rc),
                pushes_frame(s1, m1, s1.env.env),
                start == with_env(m1, Environment { env: bracket }),
                bracket == s1.frames@.len(),
                n as int == (if (*s1.functions@[fi as int].params)@.len() < args@.len() {
                    (*s1.functions@[fi as int].params)@.len() as int
                } else {
                    args@.len() as int
                }),
                forall|t: Interpreter, rv: Result<Seq<ScriptValue>, InterpreterError>|
                    #[trigger] args_rel(*self, args@, i as int, n as int, (fuel as nat - 1) as nat, values@, t, rv) ==> args_rel(
                        start,
                        args@,
                        0,
                        n as int,
                        (fuel as nat - 1) as nat,
                        Seq::empty(),
                        t,
                        rv,
                    ),
            decreases n - i,
        {
            let ghost s2 = *self;
            let ra = self.evaluate(&args[i], fuel - 1);
            let ghost s3 = *self;
            proof {
                assert(eval_rel(s2, args@[i as int], (fuel as nat - 1) as nat, s3, ra));
            }
            match ra {
                Ok(v) => {
                    proof {
                        lemma_extends_trans(&s1, &s2, self);
                        assert forall|t: Interpreter, rv: Result<Seq<ScriptValue>, InterpreterError>|
                            #[trigger] args_rel(s3, args@, i + 1, n as int, (fuel as nat - 1) as nat, values@.push(v), t, rv)
                            implies args_rel(start, args@, 0, n as int, (fuel as nat - 1) as nat, Seq::empty(), t, rv) by {
                            assert(witness((s3, ra)));
                            assert(args_rel(s2, args@, i as int, n as int, (fuel as nat - 1) as nat, values@, t, rv));
                        }
                    }
                    values.push(v);
                },
                Err(e) => {
                    proof {
                        lemma_extends_trans(&s1, &s2, self);
                        lemma_extends_trans(&s0, &s1, self);
                        assert(witness((s3, ra)));
                        assert(args_rel(s2, args@, i as int, n as int, (fuel as nat - 1) as nat, values@, s3,
                            Err::<Seq<ScriptValue>, InterpreterError>(e)));
                        assert(args_rel(start, args@, 0, n as int, (fuel as nat - 1) as nat, Seq::empty(), s3,
                            Err::<Seq<ScriptValue>, InterpreterError>(e)));
                    }
                    self.env = saved;
                    proof {
                        assert(s0.step(self));
                        assert(*self == with_env(s3, s1.env));
                        assert(witness((m1, s3, Err::<Seq<ScriptValue>, InterpreterError>(e))));
                        assert(witness((s1, rc)));
                        assert(call_expr_rel(s0, *callee, args@, fuel as nat, *self, Err::<ScriptValue, InterpreterError>(e)));
                    }
                    return Err(e);
                },
            }
            i = i + 1;
        }
        let ghost s3 = *self;
        proof {
            assert(args_rel(s3, args@, i as int, n as int, (fuel as nat - 1) as nat, values@, s3,
                Ok::<Seq<ScriptValue>, InterpreterError>(values@)));
        }
        let r = self.call_values(fi, &values, fuel - 1);
        let ghost s4 = *self;
        self.env = saved;
        proof {
            lemma_extends_trans(&s1, &s3, self);
            lemma_extends_trans(&s0, &s1, self);
            assert(call_rel(s3, fi as int, values@, (fuel as nat - 1) as nat, s4, r));
            assert(witness((m1, s3, Ok::<Seq<ScriptValue>, InterpreterError>(values@))));
            assert(witness(s4));
            assert(call_expr_rel(s0, *callee, args@, fuel as nat, *self, r));
        }
        r
    }

    /// Calls function `fi` with argument values: a new child of the captured
    /// frame binds the parameters, the body runs there, and a `return` inside
    /// it ends the call with its value.
    pub fn call_values(&mut self, fi: usize, values: &Vec<ScriptValue>, fuel: u64) -> (r: ExpressionResult)
        requires
            old(self).wf(),
            fi < old(self).functions@.len(),
            forall|k: int| 0 <= k < values@.len() ==> old(self).valid(#[trigger] values@[k]),
        ensures
            old(self).step(final(self)),
            result_valid(final(self), r),
            fuel == 0 ==> out_of_fuel(r),
            call_rel(*old(self), fi as int, values@, fuel as nat, *final(self), r),
        decreases fuel, 0nat,
    {
        if fuel == 0 {
            return Err(InterpreterError::new(&ScriptValue::Null, InterpreterErrorType::OutOfFuel));
        }
        let ghost s0 = *self;
        let saved = self.env;
        let frame = self.new_frame(self.functions[fi].env);
        let ghost m1 = *self;
        let params = Rc::clone(&self.functions[fi].params);
        let n = if params.len() < values.len() {
            params.len()
        } else {
            values.len()
        };
        let mut i: usize = 0;
        while i < n
            invariant
                self.wf(),
                s0.extends(self),
                self.env == saved,
                frame < self.frames@.len(),
                fi < self.functions@.len(),
                n <= values@.len(),
                n <= params@.len(),
                i <= n,
                forall|k: int| 0 <= k < values@.len() ==> self.valid(#[trigger] values@[k]),
                s0 == *old(self),
                frame == s0.frames@.len(),
                pushes_frame(s0, m1, s0.functions@[fi as int].env),
                params == s0.functions@[fi as int].params,
                self.functions == s0.functions,
                forall|t: Interpreter| #[trigger] bind_rel(*self, frame as int, (*params)@, values@, i as int, n as int, t)
                    ==> bind_rel(m1, frame as int, (*params)@, values@, 0, n as int, t),
            decreases n - i,
        {
            let ghost s1 = *self;
            let name = params[i].clone();
            self.declare_in(frame, name, values[i]);
            proof {
                lemma_extends_trans(&s0, &s1, self);
                assert forall|t: Interpreter| #[trigger] bind_rel(*self, frame as int, (*params)@, values@, i + 1, n as int, t)
                    implies bind_rel(m1, frame as int, (*params)@, values@, 0, n as int, t) by {
                    assert(witness(*self));
                    assert(bind_rel(s1, frame as int, (*params)@, values@, i as int, n as int, t));
                }
            }
            i = i + 1;
        }
        let ghost m2 = *self;
        proof {
            assert(bind_rel(m2, frame as int, (*params)@, values@, i as int, n as int, m2));
        }
        let body = Rc::clone(&self.functions[fi].body);
        self.env = Environment { env: frame };
        let ghost s2 = *self;
        let r = self.execute(&body, fuel - 1);
        let ghost s3 = *self;
        self.env = saved;
        proof {
            lemma_extends_trans(&s0, &s2, self);
            assert(s2 == with_env(m2, Environment { env: frame }));
            assert(exec_rel(s2, *s0.functions@[fi as int].body, (fuel as nat - 1) as nat, s3, r));
        }
        let result = match r {
            Ok(sv) => Ok(
                match sv {
                    StatementValue::Normal(v) => v,
                    StatementValue::Return(v) => v,
                },
            ),
            Err(e) => Err(e),
        };
        proof {
            assert(*self == with_env(s3, s0.env));
            assert(witness((m1, m2, s3, r)));
            assert(call_rel(s0, fi as int, values@, fuel as nat, *self, result));
        }
        result
    }

    /// Executes a statement in the current scope.
    pub fn execute(&mut self, stmt: &Statement, fuel: u64) -> (r: StatementResult)
        requires
            old(self).wf(),
        ensures
            old(self).step(final(self)),
            statement_valid(final(self), r),
            fuel == 0 ==> (r matches Err(e) && e.err_type is OutOfFuel),
            fuel > 0 ==> (stmt matches Statement::Function { name, .. } ==> declaration_law(old(self), final(self), name@, r)),
            exec_rel(*old(self), *stmt, fuel as nat, *final(self), r),
        decreases fuel, 0nat,
    {
        if fuel == 0 {
            return Err(InterpreterError::new(&ScriptValue::Null, InterpreterErrorType::OutOfFuel));
        }
        let ghost s0 = *self;
        let ghost f1 = (fuel as nat - 1) as nat;
        match stmt {
            Statement::Declaration { variables, initializer } => {
                let v = match initializer {
                    Some(e) => {
                        let ra = self.evaluate(e, fuel - 1);
                        proof {
                            assert(eval_rel(s0, *e, f1, *self, ra));
                            assert(witness((*self, ra)));
                        }
                        ra?
                    },
                    None => ScriptValue::Null,
                };
                let ghost s1 = *self;
                let mut i: usize = 0;
                while i < variables.len()
                    invariant
                        self.wf(),
                        s0.step(self),
                        self.valid(v),
                        s0 == *old(self),
                        self.env == s0.env,
                        i <= variables@.len(),
                        initializer is None ==> v == ScriptValue::Null && s1 == s0,
                        forall|t: Interpreter| #[trigger] decl_rel(*self, variables@, i as int, v, t) ==> decl_rel(s1, variables@, 0, v, t),
                    decreases variables.len() - i,
                {
                    let ghost s2 = *self;
                    let name = variables[i].clone();
                    self.declare(name, v);
                    proof {
                        lemma_extends_trans(&s0, &s2, self);
                        assert forall|t: Interpreter| #[trigger] decl_rel(*self, variables@, i + 1, v, t)
                            implies decl_rel(s1, variables@, 0, v, t) by {
                            assert(witness(*self));
                            assert(decl_rel(s2, variables@, i as int, v, t));
                        }
                    }
                    i = i + 1;
                }
                proof {
                    assert(decl_rel(*self, variables@, i as int, v, *self));
                }
                Ok(StatementValue::Normal(ScriptValue::Unit))
            },
            Statement::Assignment { assignee, expr } => {
                let ra = self.evaluate(expr, fuel - 1);
                let ghost s1 = *self;
                proof {
                    assert(eval_rel(s0, *expr, f1, s1, ra));
                    assert(witness((s1, ra)));
                }
                let v = ra?;
                let rs = self.assign(assignee, v, fuel - 1);
                proof {
                    lemma_extends_trans(&s0, &s1, self);
                    assert(assign_rel(s1, *assignee, v, f1, *self, rs));
                    assert(witness(rs));
                }
                rs?;
                Ok(StatementValue::Normal(ScriptValue::Unit))
            },
            Statement::If { condition, if_body, else_body } => {
                let rc = self.evaluate(condition, fuel - 1);
                let ghost s1 = *self;
                proof {
                    assert(eval_rel(s0, *condition, f1, s1, rc));
                    assert(witness((s1, rc)));
                }
                let c = rc?;
                let r = if c == ScriptValue::Boolean(true) {
                    self.execute(if_body, fuel - 1)
                } else {
                    match else_body {
                        Some(e) => self.execute(e, fuel - 1),
                        None => Ok(StatementValue::Normal(ScriptValue::Unit)),
                    }
                };
                proof {
                    lemma_extends_trans(&s0, &s1, self);
                }
                r
            },
            Statement::While { condition, body } => self.execute_while(condition, body, fuel - 1),
            Statement::Function { name, params, body } => {
                let captured = self.new_frame(self.env.env);
                let ghost s1 = *self;
                let f = self.new_function(Rc::clone(params), Rc::clone(body), captured);
                let ghost s2 = *self;
                self.declare(name.clone(), f);
                proof {
                    lemma_extends_trans(&s0, &s1, &s2);
                    lemma_extends_trans(&s0, &s2, self);
                    assert(witness((s1, s2)));
                }
                Ok(StatementValue::Normal(ScriptValue::Unit))
            },
            Statement::Expression(e) => {
                let ra = self.evaluate(e, fuel - 1);
                proof {
                    assert(eval_rel(s0, *e, f1, *self, ra));
                    assert(witness(ra));
                }
                let v = ra?;
                Ok(StatementValue::Normal(v))
            },
            Statement::Block(stmts) => self.execute_block(stmts, fuel - 1),
            Statement::Return(e) => {
                let ra = self.evaluate(e, fuel - 1);
                proof {
                    assert(eval_rel(s0, *e, f1, *self, ra));
                    assert(witness(ra));
                }
                let v = ra?;
                Ok(StatementValue::Return(v))
            },
            Statement::Internal(b) => self.run_builtin(*b, fuel - 1),
        }
    }

    /// Runs the statements of a block in a new scope, stopping at the first
    /// `return` or error; the scope is left on every path.
    fn execute_block(&mut self, stmts: &Vec<Statement>, fuel: u64) -> (r: StatementResult)
        requires
            old(self).wf(),
        ensures
            old(self).step(final(self)),
            statement_valid(final(self), r),
            r is Ok ==> (r->Ok_0 is Normal ==> r->Ok_0 == StatementValue::Normal(ScriptValue::Unit)),
            block_entry_rel(*old(self), stmts@, fuel as nat, *final(self), r),
        decreases fuel, 0nat,
    {
        if fuel == 0 {
            return Err(InterpreterError::new(&ScriptValue::Null, InterpreterErrorType::OutOfFuel));
        }
        let ghost s0 = *self;
        let saved = self.env;
        let scope = self.new_frame(saved.env);
        let ghost m1 = *self;
        self.env = Environment { env: scope };
        let ghost start = *self;
        proof {
            assert(start == with_env(m1, Environment { env: s0.frames@.len() as usize }));
        }
        let mut i: usize = 0;
        while i < stmts.len()
            invariant
                self.wf(),
                s0.extends(self),
                s0 == *old(self),
                saved == s0.env,
                saved.env < self.frames@.len(),
                fuel > 0,
                i <= stmts@.len(),
                pushes_frame(s0, m1, s0.env.env),
                start == with_env(m1, Environment { env: s0.frames@.len() as usize }),
                forall|t: Interpreter, r: StatementResult| #[trigger] block_rel(s0.env, *self, stmts@, i as int, fuel as nat, t, r)
                    ==> block_rel(s0.env, start, stmts@, 0, fuel as nat, t, r),
            decreases stmts.len() - i,
        {
            let ghost s1 = *self;
            let r = self.execute(&stmts[i], fuel - 1);
            let ghost s2 = *self;
            proof {
                lemma_extends_trans(&s0, &s1, self);
                assert(exec_rel(s1, stmts@[i as int], (fuel as nat - 1) as nat, s2, r));
                assert(witness((s2, r)));
            }
            match r {
                Ok(StatementValue::Normal(_)) => {
                    proof {
                        assert forall|t: Interpreter, rr: StatementResult| #[trigger] block_rel(s0.env, s2, stmts@, i + 1, fuel as nat, t, rr)
                            implies block_rel(s0.env, start, stmts@, 0, fuel as nat, t, rr) by {
                            assert(block_rel(s0.env, s1, stmts@, i as int, fuel as nat, t, rr));
                        }
                    }
                },
                _ => {
                    self.env = saved;
                    proof {
                        assert(*self == with_env(s2, s0.env));
                        assert(block_rel(s0.env, s1, stmts@, i as int, fuel as nat, *self, r));
                        assert(witness(m1));
                    }
                    return r;
                },
            }
            i = i + 1;
        }
        let ghost s3 = *self;
        self.env = saved;
        proof {
            assert(*self == with_env(s3, s0.env));
            assert(block_rel(s0.env, s3, stmts@, i as int, fuel as nat, *self, Ok(StatementValue::Normal(ScriptValue::Unit))));
            assert(witness(m1));
        }
        Ok(StatementValue::Normal(ScriptValue::Unit))
    }

    /// Runs `while condition body`: the body runs while the condition is
    /// exactly `true`; a `return` in the body ends the loop and is passed on.
    fn execute_while(&mut self, condition: &Expression, body: &Statement, fuel: u64) -> (r: StatementResult)
        requires
            old(self).wf(),
        ensures
            old(self).step(final(self)),
            statement_valid(final(self), r),
            r is Ok ==> (r->Ok_0 is Normal ==> r->Ok_0 == StatementValue::Normal(ScriptValue::Unit)),
            while_rel(*old(self), *condition, *body, fuel as nat, 0, *final(self), r),
        decreases fuel, 0nat,
    {
        if fuel == 0 {
            return Err(InterpreterError::new(&ScriptValue::Null, InterpreterErrorType::OutOfFuel));
        }
        let ghost s0 = *self;
        let mut rounds: u64 = 0;
        while rounds < fuel
            invariant
                self.wf(),
                s0.step(self),
                s0 == *old(self),
                fuel > 0,
                rounds <= fuel,
                forall|t: Interpreter, r: StatementResult| #[trigger] while_rel(*self, *condition, *body, fuel as nat, rounds as nat, t, r)
                    ==> while_rel(s0, *condition, *body, fuel as nat, 0, t, r),
            decreases fuel - rounds,
        {
            let ghost s1 = *self;
            let rc = self.evaluate(condition, fuel - 1);
            let ghost s2 = *self;
            proof {
                lemma_extends_trans(&s0, &s1, self);
                assert(eval_rel(s1, *condition, (fuel as nat - 1) as nat, s2, rc));
                assert(witness((s2, rc)));
            }
            match rc {
                Err(e) => {
                    proof {
                        assert(while_rel(s1, *condition, *body, fuel as nat, rounds as nat, s2, Err::<StatementValue, InterpreterError>(e)));
                    }
                    return Err(e);
                },
                Ok(c) => {
                    if c != ScriptValue::Boolean(true) {
                        proof {
                            assert(while_rel(s1, *condition, *body, fuel as nat, rounds as nat, s2,
                                Ok::<StatementValue, InterpreterError>(StatementValue::Normal(ScriptValue::Unit))));
                        }
                        return Ok(StatementValue::Normal(ScriptValue::Unit));
                    }
                },
            }
            let r = self.execute(body, fuel - 1);
            let ghost s3 = *self;
            proof {
                lemma_extends_trans(&s0, &s2, self);
                assert(exec_rel(s2, *body, (fuel as nat - 1) as nat, s3, r));
                assert(witness((s3, r)));
            }
            match r {
                Ok(StatementValue::Normal(_)) => {
                    proof {
                        assert forall|t: Interpreter, rr: StatementResult|
                            #[trigger] while_rel(s3, *condition, *body, fuel as nat, (rounds + 1) as nat, t, rr)
                            implies while_rel(s0, *condition, *body, fuel as nat, 0, t, rr) by {
                            assert(while_rel(s1, *condition, *body, fuel as nat, rounds as nat, t, rr));
                        }
                    }
                },
                _ => {
                    proof {
                        assert(while_rel(s1, *condition, *body, fuel as nat, rounds as nat, s3, r));
                    }
                    return r;
                },
            }
            rounds = rounds + 1;
        }
        proof {
            assert(while_rel(*self, *condition, *body, fuel as nat, rounds as nat, *self,
                Err::<StatementValue, InterpreterError>(crate::semantics::out_of_fuel_error())));
        }
        Err(InterpreterError::new(&ScriptValue::Null, InterpreterErrorType::OutOfFuel))
    }

    /// Stores `v` where `target` designates: a variable (which must already be
    /// bound), an object's field, or a list's element at an index in range.
    fn assign(&mut self, target: &Expression, v: ScriptValue, fuel: u64) -> (r: Result<(), InterpreterError>)
        requires
            old(self).wf(),
            old(self).valid(v),
        ensures
            old(self).step(final(self)),
            fuel > 0 ==> (target matches Expression::Variable(x) ==> (r is Ok <==> old(self).variable(x.identifier@) is Some)),
            fuel > 0 ==> (target matches Expression::Variable(x) ==> (r is Ok ==> final(self).frames@.len() == old(self).frames@.len())),
            assign_rel(*old(self), *target, v, fuel as nat, *final(self), r),
        decreases fuel, 0nat,
    {
        if fuel == 0 {
            return Err(InterpreterError::new(&ScriptValue::Null, InterpreterErrorType::OutOfFuel));
        }
        let ghost s0 = *self;
        let ghost f1 = (fuel as nat - 1) as nat;
        match target {
            Expression::Variable(x) => {
                if self.assign_variable(&x.identifier, v) {
                    Ok(())
                } else {
                    Err(
                        InterpreterError::new(
                            &v,
                            InterpreterErrorType::UndefinedVariable(x.identifier.clone()),
                        ),
                    )
                }
            },
            Expression::Access { target, field } => {
                let rt = self.evaluate(target, fuel - 1);
                let ghost s1 = *self;
                proof {
                    assert(eval_rel(s0, **target, f1, s1, rt));
                    assert(witness((s1, rt)));
                }
                let t = rt?;
                match t {
                    ScriptValue::Object(o) => {
                        self.set_field(o, field.clone(), v);
                        proof {
                            lemma_extends_trans(&s0, &s1, self);
                        }
                        Ok(())
                    },
                    _ => Err(InterpreterError::new(&t, InterpreterErrorType::NotObject)),
                }
            },
            Expression::Index { target, index } => {
                let rt = self.evaluate(target, fuel - 1);
                let ghost s1 = *self;
                proof {
                    assert(eval_rel(s0, **target, f1, s1, rt));
                    assert(witness((s1, rt)));
                }
                let t = rt?;
                match t {
                    ScriptValue::List(l) => {
                        let ri = self.evaluate(index, fuel - 1);
                        let ghost s2 = *self;
                        proof {
                            lemma_extends_trans(&s0, &s1, self);
                            assert(eval_rel(s1, **index, f1, s2, ri));
                            assert(witness((s2, ri)));
                        }
                        let i = ri?;
                        match i {
                            ScriptValue::Number(n) => {
                                if n >= 0 && (n as u64) < (self.lists[l].len() as u64) {
                                    self.set_element(l, n as usize, v);
                                    proof {
                                        lemma_extends_trans(&s0, &s2, self);
                                    }
                                    Ok(())
                                } else {
                                    Err(InterpreterError::new(&i, InterpreterErrorType::InvalidIndex))
                                }
                            },
                            _ => Err(InterpreterError::new(&i, InterpreterErrorType::InvalidIndex)),
                        }
                    },
                    _ => Err(InterpreterError::new(&t, InterpreterErrorType::NotIndexable)),
                }
            },
            _ => Err(InterpreterError::new(&v, InterpreterErrorType::NotAssignable)),
        }
    }

    /// Runs a host function; its arguments are the parameters bound in the
    /// current frame.
    fn run_builtin(&mut self, b: Builtin, fuel: u64) -> (r: StatementResult)
        requires
            old(self).wf(),
        ensures
            old(self).step(final(self)),
            statement_valid(final(self), r),
            builtin_rel(*old(self), b, fuel as nat, *final(self), r),
        decreases fuel, 0nat,
    {
        if fuel == 0 {
            return Err(InterpreterError::new(&ScriptValue::Null, InterpreterErrorType::OutOfFuel));
        }
        let ghost s0 = *self;
        proof {
            reveal_strlit("target");
            reveal_strlit("size");
            reveal_strlit("func");
            reveal_strlit("list");
        }
        match b {
            Builtin::Print => {
                let key = "target".to_owned();
                proof {
                    assert(key@ =~= seq!['t', 'a', 'r', 'g', 'e', 't']);
                    lemma_lookup_valid(self, self.env.env as int, key@);
                }
                match self.env.get(&self.frames, &key) {
                    Some(v) => {
                        let text = self.display(v, DISPLAY_DEPTH);
                        self.output.push(text);
                        Ok(StatementValue::Normal(ScriptValue::Unit))
                    },
                    None => Err(InterpreterError::new(&ScriptValue::Null, InterpreterErrorType::UndefinedVariable(key))),
                }
            },
            Builtin::MakeObject => {
                let o = self.new_object();
                Ok(StatementValue::Normal(o))
            },
            Builtin::MakeList => {
                let key = "size".to_owned();
                proof {
                    assert(key@ =~= seq!['s', 'i', 'z', 'e']);
                }
                let size: u64 = match self.env.get(&self.frames, &key) {
                    Some(ScriptValue::Number(n)) => {
                        if n < 0 {
                            return Err(InterpreterError::other(&ScriptValue::Number(n), "Not a size"));
                        }
                        n as u64
                    },
                    Some(other) => {
                        return Err(InterpreterError::other(&other, "Not a size"));
                    },
                    None => 0,
                };
                let mut items: Vec<ScriptValue> = Vec::new();
                let mut k: u64 = 0;
                while k < size
                    invariant
                        k <= size,
                        items@ == Seq::new(k as nat, |j: int| ScriptValue::Null),
                    decreases size - k,
                {
                    items.push(ScriptValue::Null);
                    k = k + 1;
                    proof {
                        assert(items@ =~= Seq::new(k as nat, |j: int| ScriptValue::Null));
                    }
                }
                proof {
                    if size == 0 {
                        assert(items@ =~= Seq::<ScriptValue>::empty());
                    }
                }
                let l = self.new_list(items);
                Ok(StatementValue::Normal(l))
            },
            Builtin::MapList => {
                let fkey = "func".to_owned();
                let lkey = "list".to_owned();
                proof {
                    assert(fkey@ =~= seq!['f', 'u', 'n', 'c']);
                    assert(lkey@ =~= seq!['l', 'i', 's', 't']);
                }
                let fi = match self.env.get(&self.frames, &fkey) {
                    Some(ScriptValue::Function(fi)) => fi,
                    Some(other) => {
                        return Err(InterpreterError::new(&other, InterpreterErrorType::NotCallable));
                    },
                    None => {
                        return Err(InterpreterError::new(&ScriptValue::Null, InterpreterErrorType::UndefinedVariable(fkey)));
                    },
                };
                proof {
                    lemma_lookup_valid(self, self.env.env as int, fkey@);
                    lemma_lookup_valid(self, self.env.env as int, lkey@);
                }
                let li = match self.env.get(&self.frames, &lkey) {
                    Some(ScriptValue::List(li)) => li,
                    Some(other) => {
                        return Err(InterpreterError::new(&other, InterpreterErrorType::NotIndexable));
                    },
                    None => {
                        return Err(InterpreterError::new(&ScriptValue::Null, InterpreterErrorType::UndefinedVariable(lkey)));
                    },
                };
                let n = self.lists[li].len();
                let ghost cf = (fuel as nat - 1) as nat;
                let mut results: Vec<ScriptValue> = Vec::new();
                let mut k: usize = 0;
                while k < n
                    invariant
                        self.wf(),
                        s0.step(self),
                        s0 == *old(self),
                        b == Builtin::MapList,
                        fi < self.functions@.len(),
                        li < self.lists@.len(),
                        n == self.lists@[li as int]@.len(),
                        n == s0.lists@[li as int]@.len(),
                        k <= n,
                        fuel > 0,
                        cf == (fuel as nat - 1) as nat,
                        s0.variable(seq!['f', 'u', 'n', 'c']) == Some(ScriptValue::Function(fi)),
                        s0.variable(seq!['l', 'i', 's', 't']) == Some(ScriptValue::List(li)),
                        forall|j: int| 0 <= j < results@.len() ==> self.valid(#[trigger] results@[j]),
                        forall|t: Interpreter, r: StatementResult|
                            #[trigger] map_rel(*self, fi as int, li as int, k as int, n as int, cf, results@, t, r)
                            ==> map_rel(s0, fi as int, li as int, 0, n as int, cf, Seq::empty(), t, r),
                    decreases n - k,
                {
                    let ghost s1 = *self;
                    let item = self.lists[li][k];
                    let mut args: Vec<ScriptValue> = Vec::new();
                    args.push(item);
                    proof {
                        assert(args@ =~= seq![s1.lists@[li as int]@[k as int]]);
                    }
                    let rv = self.call_values(fi, &args, fuel - 1);
                    let ghost s2 = *self;
                    proof {
                        lemma_extends_trans(&s0, &s1, self);
                        assert(call_rel(s1, fi as int, seq![s1.lists@[li as int]@[k as int]], cf, s2, rv));
                        assert(witness((s2, rv)));
                    }
                    match rv {
                        Ok(v) => {
                            proof {
                                assert forall|t: Interpreter, r: StatementResult|
                                    #[trigger] map_rel(s2, fi as int, li as int, k + 1, n as int, cf, results@.push(v), t, r)
                                    implies map_rel(s0, fi as int, li as int, 0, n as int, cf, Seq::empty(), t, r) by {
                                    assert(map_rel(s1, fi as int, li as int, k as int, n as int, cf, results@, t, r));
                                }
                            }
                            results.push(v);
                        },
                        Err(e) => {
                            proof {
                                assert(map_rel(s1, fi as int, li as int, k as int, n as int, cf, results@, s2,
                                    Err::<StatementValue, InterpreterError>(e)));
                            }
                            return Err(e);
                        },
                    }
                    k = k + 1;
                }
                let ghost s3 = *self;
                let l = self.new_list(results);
                proof {
                    assert(map_rel(s3, fi as int, li as int, k as int, n as int, cf, results@, *self,
                        Ok::<StatementValue, InterpreterError>(StatementValue::Normal(l))));
                }
                Ok(StatementValue::Normal(l))
            },
        }
    }
}

/// How deep `print` looks into nested lists and objects.
pub const DISPLAY_DEPTH: u64 = 64;

/// The display form of the values that hold no other values.
pub open spec fn scalar_text(s: &Interpreter, v: ScriptValue) -> Option<Seq<char>> {
    match v {
        ScriptValue::Number(n) => Some(decimal(n as int)),
        ScriptValue::Boolean(b) => Some(if b { seq!['t', 'r', 'u', 'e'] } else { seq!['f', 'a', 'l', 's', 'e'] }),
        ScriptValue::Null => Some(seq!['n', 'u', 'l', 'l']),
        ScriptValue::Unit => Some(seq!['(', ')']),
        ScriptValue::Function(_) => Some(seq!['F', 'u', 'n', 'c']),
        ScriptValue::Str(i) => Some(s.strings@[i as int]@),
        _ => None,
    }
}

/// Texts joined with `, ` between them.
pub open spec fn join_texts(ts: Seq<Seq<char>>) -> Seq<char>
    decreases ts.len(),
{
    if ts.len() == 0 {
        Seq::empty()
    } else if ts.len() == 1 {
        ts[0]
    } else {
        join_texts(ts.drop_last()) + seq![',', ' '] + ts.last()
    }
}

impl Interpreter {
    /// The display form of a value: numbers in decimal, `true`/`false`,
    /// `null`, `()`, strings as their contents, functions as `Func`, lists as
    /// `[a, b]` and objects as `{ k: v }`; below `depth` levels of nesting an
    /// aggregate shows as `...`.
    pub fn display(&self, v: ScriptValue, depth: u64) -> (r: String)
        requires
            self.wf(),
            self.valid(v),
        ensures
            scalar_text(self, v) is Some ==> r@ == scalar_text(self, v)->Some_0,
            r@ == display_spec(*self, v, depth as nat),
        decreases depth,
    {
        proof {
            if !(v is List) && !(v is Object) {
                assert(display_spec(*self, v, depth as nat) == scalar_text(self, v)->Some_0);
            }
        }
        proof {
            reveal_strlit("true");
            reveal_strlit("false");
            reveal_strlit("null");
            reveal_strlit("()");
            reveal_strlit("Func");
        }
        match v {
            ScriptValue::Number(n) => {
                let r = number_text(n);
                proof {
                    assert(scalar_text(self, v) == Some(decimal(n as int)));
                    assert(display_spec(*self, v, depth as nat) == decimal(n as int));
                    assert(r@ == display_spec(*self, v, depth as nat));
                }
                r
            },
            ScriptValue::Boolean(b) => if b {
                let r = "true".to_owned();
                proof {
                    assert(r@ =~= seq!['t', 'r', 'u', 'e']);
                }
                r
            } else {
                let r = "false".to_owned();
                proof {
                    assert(r@ =~= seq!['f', 'a', 'l', 's', 'e']);
                }
                r
            },
            ScriptValue::Null => {
                let r = "null".to_owned();
                proof {
                    assert(r@ =~= seq!['n', 'u', 'l', 'l']);
                }
                r
            },
            ScriptValue::Unit => {
                let r = "()".to_owned();
                proof {
                    assert(r@ =~= seq!['(', ')']);
                }
                r
            },
            ScriptValue::Function(_) => {
                let r = "Func".to_owned();
                proof {
                    assert(r@ =~= seq!['F', 'u', 'n', 'c']);
                }
                r
            },
            ScriptValue::Str(i) => self.strings[i].clone(),
            ScriptValue::List(l) => {
                if depth == 0 {
                    proof {
                        reveal_strlit("...");
                    }
                    let r = "...".to_owned();
                    proof {
                        assert(r@ =~= seq!['.', '.', '.']);
                    }
                    return r;
                }
                proof {
                    reveal_strlit("[");
                }
                let ghost texts = list_texts(*self, l as int, (depth - 1) as nat);
                let mut out = "[".to_owned();
                proof {
                    assert(texts.take(0) =~= Seq::<Seq<char>>::empty());
                    assert(out@ =~= seq!['['] + join_texts(texts.take(0)));
                }
                let mut k: usize = 0;
                while k < self.lists[l].len()
                    invariant
                        self.wf(),
                        depth > 0,
                        l < self.lists@.len(),
                        k <= self.lists@[l as int]@.len(),
                        texts == list_texts(*self, l as int, (depth - 1) as nat),
                        out@ == seq!['['] + join_texts(texts.take(k as int)),
                    decreases self.lists@[l as int]@.len() - k,
                {
                    let ghost before = out@;
                    proof {
                        reveal_strlit(", ");
                        assert(", "@ =~= seq![',', ' ']);
                    }
                    if k > 0 {
                        out.append(", ");
                    }
                    let item = self.display(self.lists[l][k], depth - 1);
                    out.append(item.as_str());
                    proof {
                        assert(texts.take(k + 1).drop_last() =~= texts.take(k as int));
                        assert(texts.take(k + 1).last() == texts[k as int]);
                        assert(item@ == texts[k as int]);
                        if k > 0 {
                            assert(join_texts(texts.take(k + 1)) == join_texts(texts.take(k as int)) + seq![',', ' ']
                                + texts[k as int]);
                            assert(out@ =~= before + seq![',', ' '] + item@);
                        }
                        assert(out@ =~= seq!['['] + join_texts(texts.take(k + 1)));
                    }
                    k = k + 1;
                }
                out.append("]");
                proof {
                    reveal_strlit("]");
                    assert(texts.take(k as int) =~= texts);
                    assert(out@ =~= seq!['['] + join_texts(texts) + seq![']']);
                }
                out
            },
            ScriptValue::Object(o) => {
                if depth == 0 {
                    proof {
                        reveal_strlit("...");
                    }
                    let r = "...".to_owned();
                    proof {
                        assert(r@ =~= seq!['.', '.', '.']);
                    }
                    return r;
                }
                proof {
                    reveal_strlit("{ ");
                }
                let ghost texts = field_texts(*self, o as int, (depth - 1) as nat);
                let mut out = "{ ".to_owned();
                proof {
                    assert(texts.take(0) =~= Seq::<Seq<char>>::empty());
                    assert(out@ =~= seq!['{', ' '] + join_texts(texts.take(0)));
                }
                let mut k: usize = 0;
                let fields = &self.objects[o].fields;
                while k < fields.len()
                    invariant
                        self.wf(),
                        depth > 0,
                        o < self.objects@.len(),
                        fields == &self.objects@[o as int].fields,
                        k <= fields@.len(),
                        texts == field_texts(*self, o as int, (depth - 1) as nat),
                        out@ == seq!['{', ' '] + join_texts(texts.take(k as int)),
                    decreases fields@.len() - k,
                {
                    let ghost before = out@;
                    proof {
                        reveal_strlit(", ");
                        reveal_strlit(": ");
                        assert(", "@ =~= seq![',', ' ']);
                        assert(": "@ =~= seq![':', ' ']);
                    }
                    if k > 0 {
                        out.append(", ");
                    }
                    let ghost sep = out@;
                    out.append(fields[k].name.as_str());
                    out.append(": ");
                    let ghost head = out@;
                    if let Some(x) = self.objects[o].get(&fields[k].name) {
                        proof {
                            crate::environment::lemma_frame_position(fields@, fields@[k as int].name@);
                        }
                        let item = self.display(x, depth - 1);
                        out.append(item.as_str());
                    }
                    proof {
                        assert(out@ =~= sep + texts[k as int]);
                        assert(texts.take(k + 1).drop_last() =~= texts.take(k as int));
                        assert(texts.take(k + 1).last() == texts[k as int]);
                        if k > 0 {
                            assert(join_texts(texts.take(k + 1)) == join_texts(texts.take(k as int)) + seq![',', ' ']
                                + texts[k as int]);
                            assert(out@ =~= before + seq![',', ' '] + texts[k as int]);
                        }
                        assert(out@ =~= seq!['{', ' '] + join_texts(texts.take(k + 1)));
                    }
                    k = k + 1;
                }
                out.append(" }");
                proof {
                    reveal_strlit(" }");
                    assert(texts.take(k as int) =~= texts);
                    assert(out@ =~= seq!['{', ' '] + join_texts(texts) + seq![' ', '}']);
                }
                out
            },
        }
    }
}

impl Interpreter {
    /// An interpreter with an empty heap and a root scope, without built-ins.
    pub fn empty() -> (r: Interpreter)
        ensures
            r.wf(),
            r.frames@.len() == 1,
            r.env.env == 0,
            r.output@.len() == 0,
            forall|n: Seq<char>| #[trigger] r.variable(n) is None,
    {
        let mut frames: Vec<Env> = Vec::new();
        let env = Environment::new(&mut frames);
        Interpreter {
            env,
            frames,
            functions: Vec::new(),
            objects: Vec::new(),
            lists: Vec::new(),
            strings: Vec::new(),
            output: Vec::new(),
        }
    }

    /// Binds `name` in the current frame to a function with parameters
    /// `params` whose body is the host function `func`.
    pub fn create_internal_function(&mut self, name: String, params: Vec<String>, func: Builtin)
        requires
            old(self).wf(),
        ensures
            old(self).step(final(self)),
            final(self).output == old(self).output,
            final(self).variable(name@) == Some(ScriptValue::Function(old(self).functions@.len() as usize)),
            final(self).functions@.len() == old(self).functions@.len() + 1,
            *final(self).functions@.last().body == Statement::Internal(func),
            *final(self).functions@.last().params == params,
            forall|n: Seq<char>| n != name@ ==> #[trigger] final(self).variable(n) == old(self).variable(n),
    {
        let ghost s0 = *self;
        let body = Rc::new(Statement::Internal(func));
        let f = self.new_function(Rc::new(params), body, self.env.env);
        let ghost s1 = *self;
        self.declare(name, f);
        proof {
            lemma_extends_trans(&s0, &s1, self);
            assert forall|n: Seq<char>| n != name@ implies #[trigger] self.variable(n) == s0.variable(n) by {
                assert(s1.variable(n) == s0.variable(n));
            }
        }
    }

    /// Runs a program's statements in order in the current scope and stops at
    /// the first error.
    pub fn exec(&mut self, program: &Vec<Statement>, fuel: u64) -> (r: Result<(), InterpreterError>)
        requires
            old(self).wf(),
        ensures
            old(self).step(final(self)),
            program_rel(*old(self), program@, 0, fuel as nat, *final(self), r),
            program@.len() == 0 ==> r is Ok && *final(self) == *old(self),
    {
        let ghost s0 = *self;
        let mut i: usize = 0;
        while i < program.len()
            invariant
                self.wf(),
                s0.step(self),
                s0 == *old(self),
                i <= program@.len(),
                forall|t: Interpreter, r: Result<(), InterpreterError>|
                    #[trigger] program_rel(*self, program@, i as int, fuel as nat, t, r) ==> program_rel(
                        s0,
                        program@,
                        0,
                        fuel as nat,
                        t,
                        r,
                    ),
            decreases program.len() - i,
        {
            let ghost s1 = *self;
            let rs = self.execute(&program[i], fuel);
            let ghost s2 = *self;
            proof {
                lemma_extends_trans(&s0, &s1, self);
                assert(exec_rel(s1, program@[i as int], fuel as nat, s2, rs));
                assert(witness((s2, rs)));
            }
            match rs {
                Ok(_) => {
                    proof {
                        assert forall|t: Interpreter, r: Result<(), InterpreterError>|
                            #[trigger] program_rel(s2, program@, i + 1, fuel as nat, t, r)
                            implies program_rel(s0, program@, 0, fuel as nat, t, r) by {
                            assert(program_rel(s1, program@, i as int, fuel as nat, t, r));
                        }
                    }
                },
                Err(e) => {
                    proof {
                        assert(program_rel(s1, program@, i as int, fuel as nat, s2, Err::<(), InterpreterError>(e)));
                    }
                    return Err(e);
                },
            }
            i = i + 1;
        }
        proof {
            assert(program_rel(*self, program@, i as int, fuel as nat, *self, Ok::<(), InterpreterError>(())));
        }
        Ok(())
    }
}

impl Interpreter {
    /// Does `v` refer only to things in this heap?
    pub fn is_valid(&self, v: ScriptValue) -> (r: bool)
        ensures
            r == self.valid(v),
    {
        match v {
            ScriptValue::Str(i) => i < self.strings.len(),
            ScriptValue::Function(i) => i < self.functions.len(),
            ScriptValue::Object(i) => i < self.objects.len(),
            ScriptValue::List(i) => i < self.lists.len(),
            _ => true,
        }
    }

    /// A one-line description of a run-time error, showing the value it is
    /// about.
    pub fn error_message(&self, e: &InterpreterError) -> (r: String)
        requires
            self.wf(),
        ensures
            e.err_type matches InterpreterErrorType::UndefinedVariable(name) ==> r@ == "Variable not found: "@ + name@,
            e.err_type is OutOfFuel ==> r@ == "Evaluation budget exhausted"@,
            self.valid(e.target) ==> ({
                let shown = display_spec(*self, e.target, DISPLAY_DEPTH as nat);
                match e.err_type {
                    InterpreterErrorType::NotCallable => r@ == "Not callable: "@ + shown,
                    InterpreterErrorType::NotObject => r@ == "Not an object: "@ + shown,
                    InterpreterErrorType::PropertyNotFound => r@ == "Property not found: "@ + shown,
                    InterpreterErrorType::InvalidIndex => r@ == "Cannot index with: "@ + shown,
                    InterpreterErrorType::NotIndexable => r@ == "Not indexable: "@ + shown,
                    InterpreterErrorType::InvalidOperation => r@ == "Invalid operation on: "@ + shown,
                    InterpreterErrorType::NotAssignable => r@ == "Cannot assign to: "@ + shown,
                    InterpreterErrorType::Other(msg) => r@ == msg@ + ": "@ + shown,
                    _ => true,
                }
            }),
    {
        proof {
            reveal_strlit("Variable not found: ");
            reveal_strlit("Evaluation budget exhausted");
            reveal_strlit("Not callable: ");
            reveal_strlit("Not an object: ");
            reveal_strlit("Property not found: ");
            reveal_strlit("Cannot index with: ");
            reveal_strlit("Not indexable: ");
            reveal_strlit("Invalid operation on: ");
            reveal_strlit("Cannot assign to: ");
            reveal_strlit(": ");
        }
        let target = if self.is_valid(e.target) {
            self.display(e.target, DISPLAY_DEPTH)
        } else {
            "?".to_owned()
        };
        let mut r = match &e.err_type {
            InterpreterErrorType::UndefinedVariable(name) => {
                let mut r = "Variable not found: ".to_owned();
                r.append(name.as_str());
                return r;
            },
            InterpreterErrorType::OutOfFuel => {
                return "Evaluation budget exhausted".to_owned();
            },
            InterpreterErrorType::NotCallable => "Not callable: ".to_owned(),
            InterpreterErrorType::NotObject => "Not an object: ".to_owned(),
            InterpreterErrorType::PropertyNotFound => "Property not found: ".to_owned(),
            InterpreterErrorType::InvalidIndex => "Cannot index with: ".to_owned(),
            InterpreterErrorType::NotIndexable => "Not indexable: ".to_owned(),
            InterpreterErrorType::InvalidOperation => "Invalid operation on: ".to_owned(),
            InterpreterErrorType::NotAssignable => "Cannot assign to: ".to_owned(),
            InterpreterErrorType::Other(msg) => {
                let mut r = msg.clone();
                r.append(": ");
                r
            },
        };
        r.append(target.as_str());
        r
    }
}

} // verus!
