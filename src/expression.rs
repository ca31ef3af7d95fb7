use vstd::prelude::*;

verus! {

/// A literal written in the source.
pub enum Literal {
    Number(i64),
    Str(String),
    Boolean(bool),
    Null,
}

/// The binary operators, grouped by precedence level in `Expression`.
#[derive(PartialEq, Eq, Structural, Clone, Copy, Debug)]
pub enum BinaryOp {
    Plus,
    Minus,
    Star,
    Slash,
    Equals,
    NotEquals,
    Lesser,
    Greater,
    EqLesser,
    EqGreater,
}

/// A reference to a variable by name.
pub struct VariableExpression {
    pub identifier: String,
}

/// The expression tree.
#[allow(inconsistent_fields)]
pub enum Expression {
    Value(Literal),
    Variable(VariableExpression),
    /// `*` and `/`.
    Multiplication { left: Box<Expression>, right: Box<Expression>, operator: BinaryOp },
    /// `+` and `-`.
    Addition { left: Box<Expression>, right: Box<Expression>, operator: BinaryOp },
    /// The six comparisons.
    Condition { left: Box<Expression>, right: Box<Expression>, operator: BinaryOp },
    Call { callee: Box<Expression>, args: Vec<Expression> },
    Index { target: Box<Expression>, index: Box<Expression> },
    Access { target: Box<Expression>, field: String },
}

} // verus!
