use vstd::prelude::*;

use crate::value::ScriptValue;

verus! {

/// One name bound to one value.
pub struct Binding {
    pub name: String,
    pub value: ScriptValue,
}

/// One frame of the scope chain. Later bindings of a name shadow earlier ones.
///
/// The bindings are a `Vec` scanned from its end rather than a `HashMap`:
/// vstd gives `HashMap` a usable specification only for keys whose hashing it
/// trusts, which a `String` name is not, while a short vector of bindings has
/// lookups that can be proved exactly.
pub struct Env {
    pub variables: Vec<Binding>,
    pub parent: Option<usize>,
}

/// The value that a frame's bindings give `name`: the last binding wins.
pub open spec fn frame_get(vars: Seq<Binding>, name: Seq<char>) -> Option<ScriptValue>
    decreases vars.len(),
{
    if vars.len() == 0 {
        None
    } else if vars.last().name@ == name {
        Some(vars.last().value)
    } else {
        frame_get(vars.drop_last(), name)
    }
}

/// Index of the binding that `frame_get` reads, or -1.
pub open spec fn frame_position(vars: Seq<Binding>, name: Seq<char>) -> int
    decreases vars.len(),
{
    if vars.len() == 0 {
        -1
    } else if vars.last().name@ == name {
        vars.len() - 1
    } else {
        frame_position(vars.drop_last(), name)
    }
}

/// The frame, walking from `f` to the root, that first binds `name`.
pub open spec fn defining_frame(frames: Seq<Env>, f: int, name: Seq<char>) -> Option<int>
    decreases f,
{
    if f < 0 || f >= frames.len() {
        None
    } else if frame_get(frames[f].variables@, name) is Some {
        Some(f)
    } else {
        match frames[f].parent {
            Some(p) => if p < f {
                defining_frame(frames, p as int, name)
            } else {
                None
            },
            None => None,
        }
    }
}

/// What `name` resolves to from frame `f`: the first hit from `f` to the root.
pub open spec fn lookup(frames: Seq<Env>, f: int, name: Seq<char>) -> Option<ScriptValue> {
    match defining_frame(frames, f, name) {
        Some(d) => frame_get(frames[d].variables@, name),
        None => None,
    }
}

/// Every parent link points to an earlier frame, so every chain reaches a root.
pub open spec fn frames_wf(frames: Seq<Env>) -> bool {
    forall|i: int|
        0 <= i < frames.len() && (#[trigger] frames[i]).parent is Some ==> frames[i].parent->Some_0 < i
}

/// Two frames hold the same bindings and the same parent link.
pub open spec fn same_frame(a: Env, b: Env) -> bool {
    a.variables@ == b.variables@ && a.parent == b.parent
}

pub proof fn lemma_frame_position(vars: Seq<Binding>, name: Seq<char>)
    ensures
        -1 <= frame_position(vars, name) < vars.len(),
        frame_position(vars, name) == -1 <==> frame_get(vars, name) is None,
        frame_position(vars, name) >= 0 ==> vars[frame_position(vars, name)].name@ == name
            && frame_get(vars, name) == Some(vars[frame_position(vars, name)].value),
    decreases vars.len(),
{
    if vars.len() > 0 && vars.last().name@ != name {
        lemma_frame_position(vars.drop_last(), name);
    }
}

/// Replacing the value of the binding that a lookup reads changes that name only.
proof fn lemma_frame_update(vars: Seq<Binding>, name: Seq<char>, b: Binding)
    requires
        frame_position(vars, name) >= 0,
        b.name@ == name,
    ensures
        forall|n: Seq<char>|
            #[trigger] frame_get(vars.update(frame_position(vars, name), b), n) == if n == name {
                Some(b.value)
            } else {
                frame_get(vars, n)
            },
    decreases vars.len(),
{
    lemma_frame_position(vars, name);
    let p = frame_position(vars, name);
    let u = vars.update(p, b);
    if vars.last().name@ == name {
        assert(u.drop_last() =~= vars.drop_last());
        assert forall|n: Seq<char>| #[trigger] frame_get(u, n) == if n == name {
            Some(b.value)
        } else {
            frame_get(vars, n)
        } by {
            assert(u.last() == b);
        }
    } else {
        assert(frame_position(vars.drop_last(), name) == p);
        lemma_frame_update(vars.drop_last(), name, b);
        assert(u.drop_last() =~= vars.drop_last().update(p, b));
        assert(u.last() == vars.last());
        assert forall|n: Seq<char>| #[trigger] frame_get(u, n) == if n == name {
            Some(b.value)
        } else {
            frame_get(vars, n)
        } by {
            assert(frame_get(vars.drop_last().update(p, b), n) == if n == name {
                Some(b.value)
            } else {
                frame_get(vars.drop_last(), n)
            });
        }
    }
}

/// Adding a binding at the end makes it the one that is read for its name.
pub proof fn lemma_frame_push(vars: Seq<Binding>, b: Binding)
    ensures
        forall|n: Seq<char>|
            #[trigger] frame_get(vars.push(b), n) == if n == b.name@ {
                Some(b.value)
            } else {
                frame_get(vars, n)
            },
{
    assert(vars.push(b).drop_last() =~= vars);
}

/// Frames that are unchanged along the chain from `f` resolve every name alike.
pub proof fn lemma_lookup_frames_agree(a: Seq<Env>, b: Seq<Env>, f: int, name: Seq<char>)
    requires
        frames_wf(a),
        a.len() <= b.len(),
        forall|i: int| 0 <= i < a.len() ==> same_frame(#[trigger] a[i], b[i]),
    ensures
        0 <= f < a.len() ==> defining_frame(a, f, name) == defining_frame(b, f, name),
        0 <= f < a.len() ==> lookup(a, f, name) == lookup(b, f, name),
    decreases f,
{
    if 0 <= f < a.len() {
        assert(same_frame(a[f], b[f]));
        if frame_get(a[f].variables@, name) is None {
            match a[f].parent {
                Some(p) => {
                    lemma_lookup_frames_agree(a, b, p as int, name);
                },
                None => {},
            }
        }
    }
}

pub proof fn lemma_defining_frame(frames: Seq<Env>, f: int, name: Seq<char>)
    requires
        frames_wf(frames),
    ensures
        defining_frame(frames, f, name) is Some ==> ({
            let d = defining_frame(frames, f, name)->Some_0;
            0 <= d <= f && d < frames.len() && frame_get(frames[d].variables@, name) is Some
        }),
        defining_frame(frames, f, name) is None <==> lookup(frames, f, name) is None,
    decreases f,
{
    if 0 <= f < frames.len() && frame_get(frames[f].variables@, name) is None {
        match frames[f].parent {
            Some(p) => {
                lemma_defining_frame(frames, p as int, name);
            },
            None => {},
        }
    }
}

/// Where one frame `d` changes its bindings of `key` only, every other name
/// resolves as before, from every frame.
pub proof fn lemma_lookup_other_names(a: Seq<Env>, b: Seq<Env>, d: int, key: Seq<char>, f: int, n: Seq<char>)
    requires
        frames_wf(a),
        a.len() == b.len(),
        0 <= d < a.len(),
        forall|i: int| 0 <= i < a.len() && i != d ==> #[trigger] b[i] == a[i],
        b[d].parent == a[d].parent,
        forall|m: Seq<char>| m != key ==> #[trigger] frame_get(b[d].variables@, m) == frame_get(a[d].variables@, m),
        n != key,
    ensures
        defining_frame(b, f, n) == defining_frame(a, f, n),
        lookup(b, f, n) == lookup(a, f, n),
    decreases f,
{
    if 0 <= f < a.len() {
        assert(frame_get(b[f].variables@, n) == frame_get(a[f].variables@, n));
        assert(b[f].parent == a[f].parent);
        if frame_get(a[f].variables@, n) is None {
            match a[f].parent {
                Some(p) => {
                    lemma_lookup_other_names(a, b, d, key, p as int, n);
                },
                None => {},
            }
        }
    }
}

/// Where frame `d`, the one that `key` resolves to from `f`, now binds `key`
/// to `val` and no other frame changed, `key` resolves to `val` from `f`.
pub proof fn lemma_lookup_updated(a: Seq<Env>, b: Seq<Env>, d: int, key: Seq<char>, val: ScriptValue, f: int)
    requires
        frames_wf(a),
        a.len() == b.len(),
        0 <= d < a.len(),
        forall|i: int| 0 <= i < a.len() && i != d ==> #[trigger] b[i] == a[i],
        b[d].parent == a[d].parent,
        frame_get(b[d].variables@, key) == Some(val),
        defining_frame(a, f, key) == Some(d),
    ensures
        lookup(b, f, key) == Some(val),
    decreases f,
{
    if f != d {
        assert(b[f] == a[f]);
        match a[f].parent {
            Some(p) => {
                lemma_lookup_updated(a, b, d, key, val, p as int);
            },
            None => {},
        }
    }
}

impl Env {
    pub fn empty(parent: Option<usize>) -> (r: Env)
        ensures
            r.variables@.len() == 0,
            r.parent == parent,
    {
        Env { variables: Vec::new(), parent }
    }

    /// Overwrites `key` in this frame alone; false when this frame does not bind
    /// it. Walking the scope chain to the frame that binds a name is
    /// `Environment::put`.
    pub fn put(&mut self, key: &String, value: ScriptValue) -> (r: bool)
        ensures
            r == (frame_get(old(self).variables@, key@) is Some),
            final(self).parent == old(self).parent,
            forall|n: Seq<char>|
                #[trigger] frame_get(final(self).variables@, n) == if n == key@ && r {
                    Some(value)
                } else {
                    frame_get(old(self).variables@, n)
                },
    {
        bindings_put(&mut self.variables, key, value)
    }

    /// Binds `key` in this frame, shadowing any earlier binding of it.
    pub fn put_new(&mut self, key: String, value: ScriptValue)
        ensures
            final(self).parent == old(self).parent,
            forall|n: Seq<char>|
                #[trigger] frame_get(final(self).variables@, n) == if n == key@ {
                    Some(value)
                } else {
                    frame_get(old(self).variables@, n)
                },
    {
        let b = Binding { name: key, value };
        proof {
            lemma_frame_push(self.variables@, b);
        }
        self.variables.push(b);
    }

    /// The value this frame alone gives `key`. Resolving a name through the
    /// whole scope chain is `Environment::get`.
    pub fn get(&self, key: &String) -> (r: Option<ScriptValue>)
        ensures
            r == frame_get(self.variables@, key@),
    {
        bindings_get(&self.variables, key)
    }
}

/// Overwrites the binding of `key` that is read; false when there is none.
pub fn bindings_put(vars: &mut Vec<Binding>, key: &String, value: ScriptValue) -> (r: bool)
    ensures
        r == (frame_get(old(vars)@, key@) is Some),
        forall|n: Seq<char>|
            #[trigger] frame_get(final(vars)@, n) == if n == key@ && r {
                Some(value)
            } else {
                frame_get(old(vars)@, n)
            },
{
    proof {
        lemma_frame_position(vars@, key@);
    }
    let mut i = vars.len();
    while i > 0
        invariant
            i <= vars@.len(),
            vars@ == old(vars)@,
            frame_position(vars@, key@) < i as int,
        decreases i,
    {
        proof {
            lemma_frame_position(vars@, key@);
        }
        i = i - 1;
        if vars[i].name == *key {
            proof {
                lemma_position_is_last_match(vars@, key@, i as int);
            }
            let b = Binding { name: key.clone(), value };
            proof {
                lemma_frame_update(vars@, key@, b);
            }
            vars.set(i, b);
            return true;
        }
    }
    proof {
        lemma_frame_position(vars@, key@);
    }
    false
}


/// The value that `vars` gives `key`.
pub fn bindings_get(vars: &Vec<Binding>, key: &String) -> (r: Option<ScriptValue>)
    ensures
        r == frame_get(vars@, key@),
{
    proof {
        lemma_frame_position(vars@, key@);
    }
    let mut i = vars.len();
    while i > 0
        invariant
            i <= vars@.len(),
            frame_position(vars@, key@) < i as int,
        decreases i,
    {
        proof {
            lemma_frame_position(vars@, key@);
        }
        i = i - 1;
        if vars[i].name == *key {
            proof {
                lemma_position_is_last_match(vars@, key@, i as int);
            }
            return Some(vars[i].value);
        }
    }
    proof {
        lemma_frame_position(vars@, key@);
    }
    None
}

/// If nothing after index `i` binds `name` and `i` does, `i` is the position read.
proof fn lemma_position_is_last_match(vars: Seq<Binding>, name: Seq<char>, i: int)
    requires
        0 <= i < vars.len(),
        vars[i].name@ == name,
        frame_position(vars, name) <= i,
    ensures
        frame_position(vars, name) == i,
    decreases vars.len(),
{
    lemma_frame_position(vars, name);
    if vars.last().name@ != name {
        if i == vars.len() - 1 {
        } else {
            lemma_position_is_last_match(vars.drop_last(), name, i);
        }
    }
}

/// A handle on the current frame of a scope chain whose frames live in a
/// shared arena (`Vec<Env>`).
#[derive(PartialEq, Eq, Structural, Clone, Copy, Debug)]
pub struct Environment {
    pub env: usize,
}

impl Environment {
    /// A handle on a fresh root frame.
    pub fn new(frames: &mut Vec<Env>) -> (r: Environment)
        requires
            frames_wf(old(frames)@),
        ensures
            frames_wf(final(frames)@),
            final(frames)@ == old(frames)@.push(final(frames)@.last()),
            final(frames)@.last().variables@.len() == 0,
            final(frames)@.last().parent is None,
            r.env == old(frames)@.len(),
    {
        let r = Environment { env: frames.len() };
        frames.push(Env::empty(None));
        r
    }

    /// Pushes a fresh child of the current frame and makes it current.
    pub fn enter(&mut self, frames: &mut Vec<Env>)
        requires
            frames_wf(old(frames)@),
            old(self).env < old(frames)@.len(),
        ensures
            frames_wf(final(frames)@),
            final(frames)@ == old(frames)@.push(final(frames)@.last()),
            final(frames)@.last().variables@.len() == 0,
            final(frames)@.last().parent == Some(old(self).env),
            final(self).env == old(frames)@.len(),
    {
        frames.push(Env::empty(Some(self.env)));
        self.env = frames.len() - 1;
    }

    /// Moves the handle to the parent of the current frame.
    pub fn exit(&mut self, frames: &Vec<Env>)
        requires
            old(self).env < frames@.len(),
            frames@[old(self).env as int].parent is Some,
        ensures
            final(self).env == frames@[old(self).env as int].parent->Some_0,
    {
        match frames[self.env].parent {
            Some(p) => {
                self.env = p;
            },
            None => {},
        }
    }

    /// Declares `key` in the current frame only.
    pub fn put_new(&self, frames: &mut Vec<Env>, key: String, val: ScriptValue)
        requires
            frames_wf(old(frames)@),
            self.env < old(frames)@.len(),
        ensures
            lookup(final(frames)@, self.env as int, key@) == Some(val),
            forall|f: int, n: Seq<char>|
                n != key@ ==> #[trigger] lookup(final(frames)@, f, n) == lookup(old(frames)@, f, n),
            frames_wf(final(frames)@),
            final(frames)@.len() == old(frames)@.len(),
            forall|i: int|
                0 <= i < old(frames)@.len() && i != self.env ==> #[trigger] final(frames)@[i] == old(frames)@[i],
            final(frames)@[self.env as int].parent == old(frames)@[self.env as int].parent,
            forall|n: Seq<char>|
                #[trigger] frame_get(final(frames)@[self.env as int].variables@, n) == if n == key@ {
                    Some(val)
                } else {
                    frame_get(old(frames)@[self.env as int].variables@, n)
                },
    {
        let ghost k = key@;
        let mut frame = Env::empty(None);
        frames.set_and_swap(self.env, &mut frame);
        frame.put_new(key, val);
        frames.set_and_swap(self.env, &mut frame);
        proof {
            assert forall|f: int, n: Seq<char>| n != k implies #[trigger] lookup(frames@, f, n) == lookup(old(frames)@, f, n) by {
                lemma_lookup_other_names(old(frames)@, frames@, self.env as int, k, f, n);
            }
            assert forall|i: int| 0 <= i < final(frames)@.len() && (#[trigger] final(frames)@[i]).parent is Some
                implies final(frames)@[i].parent->Some_0 < i by {
                assert(old(frames)@[i].parent == final(frames)@[i].parent);
            }
        }
    }

    /// Overwrites `key` in the nearest frame that binds it; false, and nothing
    /// changed, when no frame on the chain binds it.
    pub fn put(&self, frames: &mut Vec<Env>, key: &String, val: ScriptValue) -> (r: bool)
        requires
            frames_wf(old(frames)@),
            self.env < old(frames)@.len(),
        ensures
            r ==> lookup(final(frames)@, self.env as int, key@) == Some(val),
            forall|f: int, n: Seq<char>|
                n != key@ ==> #[trigger] lookup(final(frames)@, f, n) == lookup(old(frames)@, f, n),
            r == (lookup(old(frames)@, self.env as int, key@) is Some),
            frames_wf(final(frames)@),
            final(frames)@.len() == old(frames)@.len(),
            !r ==> *final(frames) == *old(frames),
            r ==> ({
                let d = defining_frame(old(frames)@, self.env as int, key@)->Some_0;
                &&& forall|i: int|
                    0 <= i < old(frames)@.len() && i != d ==> #[trigger] final(frames)@[i] == old(frames)@[i]
                &&& final(frames)@[d].parent == old(frames)@[d].parent
                &&& forall|n: Seq<char>|
                    #[trigger] frame_get(final(frames)@[d].variables@, n) == if n == key@ {
                        Some(val)
                    } else {
                        frame_get(old(frames)@[d].variables@, n)
                    }
            }),
    {
        proof {
            lemma_defining_frame(frames@, self.env as int, key@);
        }
        let mut f = self.env;
        loop
            invariant
                frames_wf(frames@),
                *frames == *old(frames),
                f < frames@.len(),
                defining_frame(frames@, f as int, key@) == defining_frame(frames@, self.env as int, key@),
            decreases f,
        {
            if frames[f].get(key).is_some() {
                let h = Environment { env: f };
                h.put_new_existing(frames, key, val);
                proof {
                    lemma_lookup_updated(old(frames)@, frames@, f as int, key@, val, self.env as int);
                    assert forall|g: int, n: Seq<char>| n != key@ implies #[trigger] lookup(frames@, g, n) == lookup(old(frames)@, g, n) by {
                        lemma_lookup_other_names(old(frames)@, frames@, f as int, key@, g, n);
                    }
                }
                return true;
            }
            match frames[f].parent {
                Some(p) => {
                    f = p;
                },
                None => {
                    return false;
                },
            }
        }
    }

    /// Overwrites `key` in the current frame, which must bind it.
    fn put_new_existing(&self, frames: &mut Vec<Env>, key: &String, val: ScriptValue)
        requires
            frames_wf(old(frames)@),
            self.env < old(frames)@.len(),
            frame_get(old(frames)@[self.env as int].variables@, key@) is Some,
        ensures
            frames_wf(final(frames)@),
            final(frames)@.len() == old(frames)@.len(),
            forall|i: int|
                0 <= i < old(frames)@.len() && i != self.env ==> #[trigger] final(frames)@[i] == old(frames)@[i],
            final(frames)@[self.env as int].parent == old(frames)@[self.env as int].parent,
            forall|n: Seq<char>|
                #[trigger] frame_get(final(frames)@[self.env as int].variables@, n) == if n == key@ {
                    Some(val)
                } else {
                    frame_get(old(frames)@[self.env as int].variables@, n)
                },
    {
        let mut frame = Env::empty(None);
        frames.set_and_swap(self.env, &mut frame);
        frame.put(key, val);
        frames.set_and_swap(self.env, &mut frame);
        proof {
            assert forall|i: int| 0 <= i < final(frames)@.len() && (#[trigger] final(frames)@[i]).parent is Some
                implies final(frames)@[i].parent->Some_0 < i by {
                assert(old(frames)@[i].parent == final(frames)@[i].parent);
            }
        }
    }

    /// What `key` resolves to from the current frame.
    pub fn get(&self, frames: &Vec<Env>, key: &String) -> (r: Option<ScriptValue>)
        requires
            frames_wf(frames@),
            self.env < frames@.len(),
        ensures
            r == lookup(frames@, self.env as int, key@),
    {
        let mut f = self.env;
        loop
            invariant
                frames_wf(frames@),
                f < frames@.len(),
                lookup(frames@, f as int, key@) == lookup(frames@, self.env as int, key@),
            decreases f,
        {
            let v = frames[f].get(key);
            if v.is_some() {
                return v;
            }
            match frames[f].parent {
                Some(p) => {
                    f = p;
                },
                None => {
                    return None;
                },
            }
        }
    }
}

} // verus!
