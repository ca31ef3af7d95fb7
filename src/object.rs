use vstd::prelude::*;

use crate::environment::{Binding, bindings_get, bindings_put, frame_get};
use crate::value::ScriptValue;

verus! {

/// A mutable record of named fields, kept as bindings where the last one of a
/// name wins (see `Env` for why not a `HashMap`).
pub struct Object {
    pub fields: Vec<Binding>,
}

impl Object {
    pub fn new() -> (r: Object)
        ensures
            r.fields@.len() == 0,
    {
        Object { fields: Vec::new() }
    }

    /// The value of field `key`, if the object has one.
    pub fn get(&self, key: &String) -> (r: Option<ScriptValue>)
        ensures
            r == frame_get(self.fields@, key@),
    {
        bindings_get(&self.fields, key)
    }

    /// Sets field `key` to `value`, adding the field if it is missing.
    pub fn set(&mut self, key: String, value: ScriptValue)
        ensures
            forall|n: Seq<char>|
                #[trigger] frame_get(final(self).fields@, n) == if n == key@ {
                    Some(value)
                } else {
                    frame_get(old(self).fields@, n)
                },
    {
        if !bindings_put(&mut self.fields, &key, value) {
            let b = Binding { name: key, value };
            proof {
                crate::environment::lemma_frame_push(self.fields@, b);
            }
            self.fields.push(b);
        }
    }
}

} // verus!
