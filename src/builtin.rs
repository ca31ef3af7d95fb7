use vstd::prelude::*;

use crate::interpreter::Interpreter;
use crate::grammar::names_model;
use crate::statement::{Builtin, Statement};
use crate::value::ScriptValue;

verus! {

/// The names under which the built-ins are registered.
pub open spec fn builtin_names() -> Seq<Seq<char>> {
    seq![
        seq!['p', 'r', 'i', 'n', 't'],
        seq!['O', 'b', 'j', 'e', 'c', 't'],
        seq!['L', 'i', 's', 't'],
        seq!['m', 'a', 'p'],
    ]
}

/// The host function registered under `builtin_names()[i]`.
pub open spec fn builtin_of(i: int) -> Builtin {
    if i == 0 {
        Builtin::Print
    } else if i == 1 {
        Builtin::MakeObject
    } else if i == 2 {
        Builtin::MakeList
    } else {
        Builtin::MapList
    }
}

/// The parameters of the host function registered under `builtin_names()[i]`.
pub open spec fn builtin_params(i: int) -> Seq<Seq<char>> {
    if i == 0 {
        seq![seq!['t', 'a', 'r', 'g', 'e', 't']]
    } else if i == 1 {
        seq![]
    } else if i == 2 {
        seq![seq!['s', 'i', 'z', 'e']]
    } else {
        seq![seq!['f', 'u', 'n', 'c'], seq!['l', 'i', 's', 't']]
    }
}

/// Name `i` of the built-ins is bound in scope to a function whose body is
/// its host function and whose parameters are its parameters.
pub open spec fn registers(s: Interpreter, i: int) -> bool {
    match s.variable(builtin_names()[i]) {
        Some(ScriptValue::Function(k)) => k < s.functions@.len() && *s.functions@[k as int].body == Statement::Internal(
            builtin_of(i),
        ) && names_model((*s.functions@[k as int].params)@) == builtin_params(i),
        _ => false,
    }
}

/// A new interpreter: a closed heap, no output, the built-ins registered.
pub open spec fn fresh(s: Interpreter) -> bool {
    &&& s.wf()
    &&& s.output@.len() == 0
    &&& forall|i: int| 0 <= i < 4 ==> #[trigger] registers(s, i)
}

fn names(words: &[&str]) -> (r: Vec<String>)
    ensures
        r@.len() == words@.len(),
        forall|i: int| 0 <= i < words@.len() ==> #[trigger] r@[i]@ == words@[i]@,
{
    let mut r: Vec<String> = Vec::new();
    let mut i: usize = 0;
    while i < words.len()
        invariant
            i <= words@.len(),
            r@.len() == i,
            forall|k: int| 0 <= k < i ==> #[trigger] r@[k]@ == words@[k]@,
        decreases words.len() - i,
    {
        r.push(words[i].to_owned());
        i = i + 1;
    }
    r
}

/// Registers `print(target)`, `Object()`, `List(size)` and `map(func, list)`
/// in the current frame.
pub fn create_builtins(interpreter: &mut Interpreter)
    requires
        old(interpreter).wf(),
    ensures
        old(interpreter).step(final(interpreter)),
        final(interpreter).output == old(interpreter).output,
        forall|i: int| 0 <= i < 4 ==> #[trigger] registers(*final(interpreter), i),
{
    proof {
        reveal_strlit("print");
        reveal_strlit("Object");
        reveal_strlit("List");
        reveal_strlit("map");
    }
    let ghost s0 = *interpreter;
    proof {
        reveal_strlit("target");
        reveal_strlit("size");
        reveal_strlit("func");
        reveal_strlit("list");
    }
    let print_name = "print".to_owned();
    let object_name = "Object".to_owned();
    let list_name = "List".to_owned();
    let map_name = "map".to_owned();
    proof {
        assert(print_name@ =~= builtin_names()[0]);
        assert(object_name@ =~= builtin_names()[1]);
        assert(list_name@ =~= builtin_names()[2]);
        assert(map_name@ =~= builtin_names()[3]);
    }
    let print_params = names(&["target"]);
    let object_params: Vec<String> = Vec::new();
    let list_params = names(&["size"]);
    let map_params = names(&["func", "list"]);
    proof {
        assert("target"@ =~= seq!['t', 'a', 'r', 'g', 'e', 't']);
        assert("size"@ =~= seq!['s', 'i', 'z', 'e']);
        assert(print_params@[0]@ == seq!['t', 'a', 'r', 'g', 'e', 't']);
        assert(list_params@[0]@ == seq!['s', 'i', 'z', 'e']);
        assert(names_model(print_params@) =~= builtin_params(0));
        assert(names_model(object_params@) =~= builtin_params(1));
        assert(names_model(list_params@) =~= builtin_params(2));
        assert("func"@ =~= seq!['f', 'u', 'n', 'c']);
        assert("list"@ =~= seq!['l', 'i', 's', 't']);
        assert(map_params@[0]@ == seq!['f', 'u', 'n', 'c']);
        assert(map_params@[1]@ == seq!['l', 'i', 's', 't']);
        assert(names_model(map_params@) =~= builtin_params(3));
    }
    let n0 = interpreter.functions.len();
    interpreter.create_internal_function(print_name, print_params, Builtin::Print);
    let n1 = interpreter.functions.len();
    let ghost s1 = *interpreter;
    proof {
        let k = s0.functions@.len() as int;
        assert(s1.functions@[k] == s1.functions@.last());
        assert(s1.variable(builtin_names()[0]) == Some(ScriptValue::Function(s0.functions@.len() as usize)));
        assert(n0 as int == k);
        assert(*s1.functions@[k].body == Statement::Internal(Builtin::Print));
        assert((*s1.functions@[k].params)@ == print_params@);
        assert(names_model((*s1.functions@[k].params)@) == builtin_params(0));
        assert(builtin_of(0) == Builtin::Print);
        assert(builtin_params(0) == seq![seq!['t', 'a', 'r', 'g', 'e', 't']]);
        assert(k < s1.functions@.len());
        assert(registers(s1, 0));
    }
    interpreter.create_internal_function(object_name, object_params, Builtin::MakeObject);
    let ghost s2 = *interpreter;
    proof {
        let k = s1.functions@.len() as int;
        assert(s2.functions@[k] == s2.functions@.last());
        assert(s2.variable(builtin_names()[1]) == Some(ScriptValue::Function(s1.functions@.len() as usize)));
        assert(n1 as int == k);
        assert(*s2.functions@[k].body == Statement::Internal(Builtin::MakeObject));
        assert((*s2.functions@[k].params)@ == object_params@);
        assert(names_model((*s2.functions@[k].params)@) == builtin_params(1));
        assert(builtin_of(1) == Builtin::MakeObject);
        assert(registers(s2, 1));
        assert(s2.variable(builtin_names()[0]) == s1.variable(builtin_names()[0]));
        assert(registers(s2, 0));
    }
    let n2 = interpreter.functions.len();
    interpreter.create_internal_function(list_name, list_params, Builtin::MakeList);
    let ghost s3 = *interpreter;
    proof {
        let k = s2.functions@.len() as int;
        assert(s3.functions@[k] == s3.functions@.last());
        assert(n2 as int == k);
        assert(s3.variable(builtin_names()[2]) == Some(ScriptValue::Function(n2)));
        assert(registers(s3, 2));
        assert(s3.variable(builtin_names()[0]) == s2.variable(builtin_names()[0]));
        assert(s3.variable(builtin_names()[1]) == s2.variable(builtin_names()[1]));
        assert(registers(s3, 0));
        assert(registers(s3, 1));
    }
    let n3 = interpreter.functions.len();
    interpreter.create_internal_function(map_name, map_params, Builtin::MapList);
    proof {
        crate::interpreter::lemma_extends_trans(&s0, &s1, &s2);
        crate::interpreter::lemma_extends_trans(&s0, &s2, &s3);
        crate::interpreter::lemma_extends_trans(&s0, &s3, interpreter);
        assert(builtin_names()[0] != builtin_names()[1]);
        assert(builtin_names()[0] != builtin_names()[2]);
        assert(builtin_names()[0] != builtin_names()[3]);
        assert(builtin_names()[1] != builtin_names()[2]);
        assert(builtin_names()[1] != builtin_names()[3]);
        assert(builtin_names()[2] != builtin_names()[3]);
        let k = s3.functions@.len() as int;
        assert(interpreter.functions@[k] == interpreter.functions@.last());
        assert(n3 as int == k);
        assert(interpreter.variable(builtin_names()[3]) == Some(ScriptValue::Function(n3)));
        assert(registers(*interpreter, 3));
        assert(interpreter.variable(builtin_names()[0]) == s3.variable(builtin_names()[0]));
        assert(interpreter.variable(builtin_names()[1]) == s3.variable(builtin_names()[1]));
        assert(interpreter.variable(builtin_names()[2]) == s3.variable(builtin_names()[2]));
        assert(registers(*interpreter, 0));
        assert(registers(*interpreter, 1));
        assert(registers(*interpreter, 2));
    }
}

impl Interpreter {
    /// An interpreter whose root scope holds the built-ins.
    pub fn new() -> (r: Interpreter)
        ensures
            r.wf(),
            r.output@.len() == 0,
            fresh(r),
            r.env.env == 0,
    {
        let mut r = Interpreter::empty();
        create_builtins(&mut r);
        r
    }
}

} // verus!
