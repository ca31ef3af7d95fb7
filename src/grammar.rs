use vstd::prelude::*;

use crate::expression::{BinaryOp, Expression, Literal};
use crate::statement::{Builtin, Statement};
use crate::token::{Token, TokenKind};

verus! {

/// Mathematical model of an expression tree.
pub enum ExprModel {
    Number(int),
    Str(Seq<char>),
    Boolean(bool),
    Null,
    Variable(Seq<char>),
    Multiplication(Box<ExprModel>, BinaryOp, Box<ExprModel>),
    Addition(Box<ExprModel>, BinaryOp, Box<ExprModel>),
    Condition(Box<ExprModel>, BinaryOp, Box<ExprModel>),
    Call(Box<ExprModel>, Seq<ExprModel>),
    Index(Box<ExprModel>, Box<ExprModel>),
    Access(Box<ExprModel>, Seq<char>),
}

/// The model of an expression tree.
pub open spec fn model(e: &Expression) -> ExprModel
    decreases e,
{
    match e {
        Expression::Value(Literal::Number(n)) => ExprModel::Number(*n as int),
        Expression::Value(Literal::Str(s)) => ExprModel::Str(s@),
        Expression::Value(Literal::Boolean(b)) => ExprModel::Boolean(*b),
        Expression::Value(Literal::Null) => ExprModel::Null,
        Expression::Variable(v) => ExprModel::Variable(v.identifier@),
        Expression::Multiplication { left, right, operator } => ExprModel::Multiplication(
            Box::new(model(left)),
            *operator,
            Box::new(model(right)),
        ),
        Expression::Addition { left, right, operator } => ExprModel::Addition(
            Box::new(model(left)),
            *operator,
            Box::new(model(right)),
        ),
        Expression::Condition { left, right, operator } => ExprModel::Condition(
            Box::new(model(left)),
            *operator,
            Box::new(model(right)),
        ),
        Expression::Call { callee, args } => ExprModel::Call(
            Box::new(model(callee)),
            Seq::new(args@.len(), |k: int| if 0 <= k < args@.len() { model(&args@[k]) } else { ExprModel::Null }),
        ),
        Expression::Index { target, index } => ExprModel::Index(Box::new(model(target)), Box::new(model(index))),
        Expression::Access { target, field } => ExprModel::Access(Box::new(model(target)), field@),
    }
}

/// The models of a list of expressions.
pub open spec fn args_model(args: Seq<Expression>) -> Seq<ExprModel> {
    Seq::new(args.len(), |k: int| if 0 <= k < args.len() { model(&args[k]) } else { ExprModel::Null })
}

/// The kinds of a token sequence.
pub open spec fn kinds(ts: Seq<Token>) -> Seq<TokenKind> {
    ts.map_values(|t: Token| t.token_type@)
}

pub open spec fn comparison_of(k: TokenKind) -> Option<BinaryOp> {
    match k {
        TokenKind::Equals => Some(BinaryOp::Equals),
        TokenKind::NotEquals => Some(BinaryOp::NotEquals),
        TokenKind::Lesser => Some(BinaryOp::Lesser),
        TokenKind::Greater => Some(BinaryOp::Greater),
        TokenKind::EqLesser => Some(BinaryOp::EqLesser),
        TokenKind::EqGreater => Some(BinaryOp::EqGreater),
        _ => None,
    }
}

pub open spec fn addition_of(k: TokenKind) -> Option<BinaryOp> {
    match k {
        TokenKind::Plus => Some(BinaryOp::Plus),
        TokenKind::Minus => Some(BinaryOp::Minus),
        _ => None,
    }
}

pub open spec fn multiplication_of(k: TokenKind) -> Option<BinaryOp> {
    match k {
        TokenKind::Star => Some(BinaryOp::Star),
        TokenKind::Slash => Some(BinaryOp::Slash),
        _ => None,
    }
}

/// Is there a token of kind `k` at `i`?
pub open spec fn at(ks: Seq<TokenKind>, i: int, k: TokenKind) -> bool {
    0 <= i < ks.len() && ks[i] == k
}

/// `expression := comparison`. Each rule gives the tree parsed from index `i`
/// and the index after it, or `None` where the tokens do not parse.
pub open spec fn parse_expression(ks: Seq<TokenKind>, i: int) -> Option<(ExprModel, int)>
    decreases ks.len() - i, 5int,
{
    parse_condition(ks, i)
}

/// `comparison := addition (comparison-operator comparison)?`
pub open spec fn parse_condition(ks: Seq<TokenKind>, i: int) -> Option<(ExprModel, int)>
    decreases ks.len() - i, 4int,
{
    match parse_addition(ks, i) {
        None => None,
        Some((left, k)) => if i < k < ks.len() && comparison_of(ks[k]) is Some {
            match parse_condition(ks, k + 1) {
                Some((right, j)) => Some(
                    (ExprModel::Condition(Box::new(left), comparison_of(ks[k])->Some_0, Box::new(right)), j),
                ),
                None => None,
            }
        } else {
            Some((left, k))
        },
    }
}

/// `addition := multiplication (('+' | '-') addition)?`
pub open spec fn parse_addition(ks: Seq<TokenKind>, i: int) -> Option<(ExprModel, int)>
    decreases ks.len() - i, 3int,
{
    match parse_multiplication(ks, i) {
        None => None,
        Some((left, k)) => if i < k < ks.len() && addition_of(ks[k]) is Some {
            match parse_addition(ks, k + 1) {
                Some((right, j)) => Some(
                    (ExprModel::Addition(Box::new(left), addition_of(ks[k])->Some_0, Box::new(right)), j),
                ),
                None => None,
            }
        } else {
            Some((left, k))
        },
    }
}

/// `multiplication := factor (('*' | '/') multiplication)?`
pub open spec fn parse_multiplication(ks: Seq<TokenKind>, i: int) -> Option<(ExprModel, int)>
    decreases ks.len() - i, 2int,
{
    match parse_factor(ks, i) {
        None => None,
        Some((left, k)) => if i < k < ks.len() && multiplication_of(ks[k]) is Some {
            match parse_multiplication(ks, k + 1) {
                Some((right, j)) => Some(
                    (ExprModel::Multiplication(Box::new(left), multiplication_of(ks[k])->Some_0, Box::new(right)), j),
                ),
                None => None,
            }
        } else {
            Some((left, k))
        },
    }
}

/// The tree a primary token stands for by itself.
pub open spec fn primary_of(k: TokenKind) -> Option<ExprModel> {
    match k {
        TokenKind::Number(n) => Some(ExprModel::Number(n)),
        TokenKind::Str(s) => Some(ExprModel::Str(s)),
        TokenKind::Boolean(b) => Some(ExprModel::Boolean(b)),
        TokenKind::Null => Some(ExprModel::Null),
        TokenKind::Identifier(x) => Some(ExprModel::Variable(x)),
        _ => None,
    }
}

/// `factor := primary suffix*`, `primary := literal | identifier | '(' expression ')'`
pub open spec fn parse_factor(ks: Seq<TokenKind>, i: int) -> Option<(ExprModel, int)>
    decreases ks.len() - i, 1int,
{
    if i < 0 || i >= ks.len() {
        None
    } else if primary_of(ks[i]) is Some {
        parse_suffixes(ks, primary_of(ks[i])->Some_0, i + 1)
    } else if ks[i] == TokenKind::LeftParen {
        match parse_expression(ks, i + 1) {
            Some((e, k)) => if i < k && at(ks, k, TokenKind::RightParen) {
                parse_suffixes(ks, e, k + 1)
            } else {
                None
            },
            None => None,
        }
    } else {
        None
    }
}

/// `suffix := '(' args ')' | '[' expression ']' | '.' identifier`, applied to
/// `base` left to right.
pub open spec fn parse_suffixes(ks: Seq<TokenKind>, base: ExprModel, i: int) -> Option<(ExprModel, int)>
    decreases ks.len() - i, 0int,
{
    if i < 0 || i > ks.len() {
        None
    } else if at(ks, i, TokenKind::LeftParen) {
        match parse_arguments(ks, i + 1, Seq::empty()) {
            Some((args, k)) => if i < k && at(ks, k, TokenKind::RightParen) {
                parse_suffixes(ks, ExprModel::Call(Box::new(base), args), k + 1)
            } else {
                None
            },
            None => None,
        }
    } else if at(ks, i, TokenKind::LeftBrace) {
        match parse_expression(ks, i + 1) {
            Some((index, k)) => if i < k && at(ks, k, TokenKind::RightBrace) {
                parse_suffixes(ks, ExprModel::Index(Box::new(base), Box::new(index)), k + 1)
            } else {
                None
            },
            None => None,
        }
    } else if at(ks, i, TokenKind::Dot) {
        if i + 1 < ks.len() && ks[i + 1] is Identifier {
            parse_suffixes(ks, ExprModel::Access(Box::new(base), ks[i + 1]->Identifier_0), i + 2)
        } else {
            None
        }
    } else {
        Some((base, i))
    }
}

/// The arguments of a call from `i`, those in `done` already read: all the
/// argument trees and the index of the token that should close the list.
pub open spec fn parse_arguments(ks: Seq<TokenKind>, i: int, done: Seq<ExprModel>) -> Option<(Seq<ExprModel>, int)>
    decreases ks.len() - i, 6int,
{
    if i < 0 || i >= ks.len() || ks[i] == TokenKind::RightParen {
        Some((done, i))
    } else {
        match parse_expression(ks, i) {
            Some((a, k)) => if i < k && at(ks, k, TokenKind::Comma) {
                parse_arguments(ks, k + 1, done.push(a))
            } else {
                Some((done.push(a), k))
            },
            None => None,
        }
    }
}

/// Mathematical model of a statement tree.
pub enum StmtModel {
    Declaration(Seq<Seq<char>>, Option<ExprModel>),
    Assignment(ExprModel, ExprModel),
    If(ExprModel, Box<StmtModel>, Option<Box<StmtModel>>),
    While(ExprModel, Box<StmtModel>),
    Function(Seq<char>, Seq<Seq<char>>, Box<StmtModel>),
    Expression(ExprModel),
    Block(Seq<StmtModel>),
    Return(ExprModel),
    Internal(Builtin),
}

/// The names in a list of names.
pub open spec fn names_model(names: Seq<String>) -> Seq<Seq<char>> {
    Seq::new(names.len(), |k: int| names[k]@)
}

/// The model of a statement tree.
pub open spec fn stmt_model(s: &Statement) -> StmtModel
    decreases s,
{
    match s {
        Statement::Declaration { variables, initializer } => StmtModel::Declaration(
            names_model(variables@),
            match initializer {
                Some(e) => Some(model(e)),
                None => None,
            },
        ),
        Statement::Assignment { assignee, expr } => StmtModel::Assignment(model(assignee), model(expr)),
        Statement::If { condition, if_body, else_body } => StmtModel::If(
            model(condition),
            Box::new(stmt_model(if_body)),
            match else_body {
                Some(e) => Some(Box::new(stmt_model(e))),
                None => None,
            },
        ),
        Statement::While { condition, body } => StmtModel::While(model(condition), Box::new(stmt_model(body))),
        Statement::Function { name, params, body } => StmtModel::Function(
            name@,
            names_model(params@),
            Box::new(stmt_model(&**body)),
        ),
        Statement::Expression(e) => StmtModel::Expression(model(e)),
        Statement::Block(stmts) => StmtModel::Block(
            Seq::new(
                stmts@.len(),
                |k: int| if 0 <= k < stmts@.len() { stmt_model(&stmts@[k]) } else { StmtModel::Internal(Builtin::Print) },
            ),
        ),
        Statement::Return(e) => StmtModel::Return(model(e)),
        Statement::Internal(b) => StmtModel::Internal(*b),
    }
}

/// The models of a list of statements.
pub open spec fn stmts_model(ss: Seq<Statement>) -> Seq<StmtModel> {
    Seq::new(ss.len(), |k: int| if 0 <= k < ss.len() { stmt_model(&ss[k]) } else { StmtModel::Internal(Builtin::Print) })
}

/// `params := ident (',' ident)*`, possibly empty; `done` already read.
pub open spec fn parse_params(ks: Seq<TokenKind>, i: int, done: Seq<Seq<char>>) -> (Seq<Seq<char>>, int)
    decreases ks.len() - i,
{
    if 0 <= i < ks.len() && ks[i] is Identifier {
        if at(ks, i + 1, TokenKind::Comma) {
            parse_params(ks, i + 2, done.push(ks[i]->Identifier_0))
        } else {
            (done.push(ks[i]->Identifier_0), i + 1)
        }
    } else {
        (done, i)
    }
}

/// An expression statement, or `expression '=' expression` where the
/// statement starts with a name.
pub open spec fn parse_simple(ks: Seq<TokenKind>, i: int) -> Option<(StmtModel, int)> {
    match parse_expression(ks, i) {
        Some((e, k)) => if 0 <= i < ks.len() && ks[i] is Identifier && at(ks, k, TokenKind::Assign) {
            match parse_expression(ks, k + 1) {
                Some((v, j)) => Some((StmtModel::Assignment(e, v), j)),
                None => None,
            }
        } else {
            Some((StmtModel::Expression(e), k))
        },
        None => None,
    }
}

/// `statement := varDecl | if | while | funcDecl | return | block | assignOrExpr`
pub open spec fn parse_statement(ks: Seq<TokenKind>, i: int) -> Option<(StmtModel, int)>
    decreases ks.len() - i, 7int,
{
    if i < 0 || i >= ks.len() {
        None
    } else if ks[i] == TokenKind::Var {
        if i + 1 < ks.len() && ks[i + 1] is Identifier && at(ks, i + 2, TokenKind::Assign) {
            match parse_expression(ks, i + 3) {
                Some((e, k)) => Some((StmtModel::Declaration(seq![ks[i + 1]->Identifier_0], Some(e)), k)),
                None => None,
            }
        } else {
            None
        }
    } else if ks[i] == TokenKind::If {
        match parse_expression(ks, i + 1) {
            Some((c, k)) => if i < k <= ks.len() {
                match parse_statement(ks, k) {
                    Some((body, j)) => if k < j && at(ks, j, TokenKind::Else) {
                        match parse_statement(ks, j + 1) {
                            Some((other, m)) => Some((StmtModel::If(c, Box::new(body), Some(Box::new(other))), m)),
                            None => None,
                        }
                    } else {
                        Some((StmtModel::If(c, Box::new(body), None), j))
                    },
                    None => None,
                }
            } else {
                None
            },
            None => None,
        }
    } else if ks[i] == TokenKind::While {
        match parse_expression(ks, i + 1) {
            Some((c, k)) => if i < k <= ks.len() {
                match parse_statement(ks, k) {
                    Some((body, j)) => Some((StmtModel::While(c, Box::new(body)), j)),
                    None => None,
                }
            } else {
                None
            },
            None => None,
        }
    } else if ks[i] == TokenKind::Func {
        if i + 1 < ks.len() && ks[i + 1] is Identifier && at(ks, i + 2, TokenKind::LeftParen) {
            let (ps, k) = parse_params(ks, i + 3, Seq::empty());
            if i < k && at(ks, k, TokenKind::RightParen) {
                match parse_statement(ks, k + 1) {
                    Some((body, j)) => Some((StmtModel::Function(ks[i + 1]->Identifier_0, ps, Box::new(body)), j)),
                    None => None,
                }
            } else {
                None
            }
        } else {
            None
        }
    } else if ks[i] == TokenKind::Return {
        match parse_expression(ks, i + 1) {
            Some((e, k)) => Some((StmtModel::Return(e), k)),
            None => None,
        }
    } else if ks[i] == TokenKind::LeftBracket {
        parse_block(ks, i + 1, Seq::empty())
    } else {
        parse_simple(ks, i)
    }
}

/// `block := '{' statement* '}'` from after the `{`, with `done` already read.
pub open spec fn parse_block(ks: Seq<TokenKind>, i: int, done: Seq<StmtModel>) -> Option<(StmtModel, int)>
    decreases ks.len() - i, 8int,
{
    if i < 0 || i >= ks.len() {
        None
    } else if ks[i] == TokenKind::RightBracket {
        Some((StmtModel::Block(done), i + 1))
    } else {
        match parse_statement(ks, i) {
            Some((st, k)) => if i < k <= ks.len() {
                parse_block(ks, k, done.push(st))
            } else {
                None
            },
            None => None,
        }
    }
}

/// `program := statement*` from `i`, with `done` already read.
pub open spec fn parse_program(ks: Seq<TokenKind>, i: int, done: Seq<StmtModel>) -> Option<Seq<StmtModel>>
    decreases ks.len() - i,
{
    if i < 0 || i >= ks.len() {
        Some(done)
    } else {
        match parse_statement(ks, i) {
            Some((st, k)) => if i < k <= ks.len() {
                parse_program(ks, k, done.push(st))
            } else {
                None
            },
            None => None,
        }
    }
}

} // verus!
