use vstd::prelude::*;

use std::rc::Rc;

use crate::statement::Statement;

verus! {

/// A function value: its parameters, its shared body and the frame it captured.
pub struct Function {
    pub params: Rc<Vec<String>>,
    pub body: Rc<Statement>,
    pub env: usize,
}

impl Function {
    pub fn new(params: Rc<Vec<String>>, body: Rc<Statement>, env: usize) -> (r: Function)
        ensures
            r.params == params,
            r.body == body,
            r.env == env,
    {
        Function { params, body, env }
    }
}

} // verus!
