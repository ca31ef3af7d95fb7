use vstd::prelude::*;

use std::rc::Rc;

use crate::expression::Expression;

verus! {

/// The functions the host provides; each runs as the body of a function value.
#[derive(PartialEq, Eq, Structural, Clone, Copy, Debug)]
pub enum Builtin {
    Print,
    MakeObject,
    MakeList,
    MapList,
}

/// The statement tree.
#[allow(inconsistent_fields)]
pub enum Statement {
    Declaration { variables: Vec<String>, initializer: Option<Expression> },
    Assignment { assignee: Expression, expr: Expression },
    If { condition: Expression, if_body: Box<Statement>, else_body: Option<Box<Statement>> },
    While { condition: Expression, body: Box<Statement> },
    Function { name: String, params: Rc<Vec<String>>, body: Rc<Statement> },
    Expression(Expression),
    Block(Vec<Statement>),
    Return(Expression),
    Internal(Builtin),
}

} // verus!
