use vstd::prelude::*;

use std::rc::Rc;

use crate::expression::{BinaryOp, Expression, Literal, VariableExpression};
use crate::grammar::{
    ExprModel, StmtModel, args_model, names_model, parse_block, parse_params, parse_program, parse_simple,
    parse_statement, stmt_model, stmts_model,
    addition_of, at, comparison_of, kinds, model, multiplication_of, parse_arguments, parse_condition,
    parse_addition, parse_expression, parse_factor, parse_multiplication, parse_suffixes,
};
use crate::parser_errors::{ParserError, copy_token};
use crate::statement::Statement;
use crate::token::{Token, TokenKind, TokenType};

verus! {

/// A token buffer with a read position.
pub struct Tokens {
    pub input: Vec<Token>,
    pub index: usize,
}

impl Tokens {
    pub open spec fn wf(&self) -> bool {
        self.index <= self.input@.len()
    }

    pub fn new(vec: Vec<Token>) -> (r: Tokens)
        ensures
            r.input == vec,
            r.index == 0,
    {
        Tokens { input: vec, index: 0 }
    }

    /// The token at the read position, if any.
    pub fn current(&self) -> (r: Option<&Token>)
        requires
            self.wf(),
        ensures
            r is Some <==> self.index < self.input@.len(),
            r is Some ==> *r->Some_0 == self.input@[self.index as int],
    {
        if self.index < self.input.len() {
            Some(&self.input[self.index])
        } else {
            None
        }
    }

    /// The token at the read position, if any; the position moves past it.
    pub fn consume(&mut self) -> (r: Option<&Token>)
        requires
            old(self).wf(),
        ensures
            final(self).wf(),
            final(self).input == old(self).input,
            r is Some <==> old(self).index < old(self).input@.len(),
            r is Some ==> *r->Some_0 == old(self).input@[old(self).index as int] && final(self).index == old(self).index + 1,
            r is None ==> final(self).index == old(self).index,
    {
        if self.index < self.input.len() {
            let i = self.index;
            self.index = i + 1;
            Some(&self.input[i])
        } else {
            None
        }
    }

    /// Moves past the current token and returns the next one, if any.
    pub fn advance(&mut self) -> (r: Option<&Token>)
        requires
            old(self).wf(),
        ensures
            final(self).wf(),
            final(self).input == old(self).input,
            final(self).index == if old(self).index < old(self).input@.len() {
                old(self).index + 1
            } else {
                old(self).index as int
            },
            r is Some <==> final(self).index < final(self).input@.len(),
            r is Some ==> *r->Some_0 == final(self).input@[final(self).index as int],
    {
        if self.index < self.input.len() {
            self.index = self.index + 1;
        }
        self.current()
    }
}

/// A number for each kind of token, payloads aside.
pub open spec fn kind_code(k: TokenKind) -> u8 {
    match k {
        TokenKind::Identifier(_) => 0,
        TokenKind::Number(_) => 1,
        TokenKind::Str(_) => 2,
        TokenKind::Boolean(_) => 3,
        TokenKind::Plus => 4,
        TokenKind::Minus => 5,
        TokenKind::Star => 6,
        TokenKind::Slash => 7,
        TokenKind::Assign => 8,
        TokenKind::And => 9,
        TokenKind::Or => 10,
        TokenKind::Not => 11,
        TokenKind::BitAnd => 12,
        TokenKind::BitOr => 13,
        TokenKind::Equals => 14,
        TokenKind::NotEquals => 15,
        TokenKind::Greater => 16,
        TokenKind::Lesser => 17,
        TokenKind::EqGreater => 18,
        TokenKind::EqLesser => 19,
        TokenKind::Var => 20,
        TokenKind::Func => 21,
        TokenKind::If => 22,
        TokenKind::Else => 23,
        TokenKind::While => 24,
        TokenKind::LeftBracket => 25,
        TokenKind::RightBracket => 26,
        TokenKind::LeftParen => 27,
        TokenKind::RightParen => 28,
        TokenKind::LeftBrace => 29,
        TokenKind::RightBrace => 30,
        TokenKind::Comma => 31,
        TokenKind::Dot => 32,
        TokenKind::Return => 33,
        TokenKind::Null => 34,
    }
}

/// A kind that carries no payload.
pub open spec fn is_simple(k: TokenKind) -> bool {
    !(k is Identifier) && !(k is Number) && !(k is Str) && !(k is Boolean)
}

fn kind_index(t: &TokenType) -> (r: u8)
    ensures
        r == kind_code(t@),
{
    match t {
        TokenType::Identifier(_) => 0,
        TokenType::Number(_) => 1,
        TokenType::Str(_) => 2,
        TokenType::Boolean(_) => 3,
        TokenType::Plus => 4,
        TokenType::Minus => 5,
        TokenType::Star => 6,
        TokenType::Slash => 7,
        TokenType::Assign => 8,
        TokenType::And => 9,
        TokenType::Or => 10,
        TokenType::Not => 11,
        TokenType::BitAnd => 12,
        TokenType::BitOr => 13,
        TokenType::Equals => 14,
        TokenType::NotEquals => 15,
        TokenType::Greater => 16,
        TokenType::Lesser => 17,
        TokenType::EqGreater => 18,
        TokenType::EqLesser => 19,
        TokenType::Var => 20,
        TokenType::Func => 21,
        TokenType::If => 22,
        TokenType::Else => 23,
        TokenType::While => 24,
        TokenType::LeftBracket => 25,
        TokenType::RightBracket => 26,
        TokenType::LeftParen => 27,
        TokenType::RightParen => 28,
        TokenType::LeftBrace => 29,
        TokenType::RightBrace => 30,
        TokenType::Comma => 31,
        TokenType::Dot => 32,
        TokenType::Return => 33,
        TokenType::Null => 34,
    }
}

/// The operator a comparison token stands for.
fn comparison_op(t: &TokenType) -> (r: Option<BinaryOp>)
    ensures
        r == comparison_of(t@),
{
    match t {
        TokenType::Equals => Some(BinaryOp::Equals),
        TokenType::NotEquals => Some(BinaryOp::NotEquals),
        TokenType::Lesser => Some(BinaryOp::Lesser),
        TokenType::Greater => Some(BinaryOp::Greater),
        TokenType::EqLesser => Some(BinaryOp::EqLesser),
        TokenType::EqGreater => Some(BinaryOp::EqGreater),
        _ => None,
    }
}

fn addition_op(t: &TokenType) -> (r: Option<BinaryOp>)
    ensures
        r == addition_of(t@),
{
    match t {
        TokenType::Plus => Some(BinaryOp::Plus),
        TokenType::Minus => Some(BinaryOp::Minus),
        _ => None,
    }
}

fn multiplication_op(t: &TokenType) -> (r: Option<BinaryOp>)
    ensures
        r == multiplication_of(t@),
{
    match t {
        TokenType::Star => Some(BinaryOp::Star),
        TokenType::Slash => Some(BinaryOp::Slash),
        _ => None,
    }
}

/// `r` is what the grammar rule gave (`expected`), and the parser stopped where
/// the rule did.
pub open spec fn parsed_as(expected: Option<(ExprModel, int)>, after: &Parser, r: Result<Expression, ParserError>) -> bool {
    match r {
        Ok(e) => expected == Some((model(&e), after.input.index as int)),
        Err(_) => expected is None,
    }
}

/// `r` is the statement the grammar gave (`expected`), and the parser stopped
/// where the rule did.
pub open spec fn stmt_parsed_as(expected: Option<(StmtModel, int)>, after: &Parser, r: Result<Statement, ParserError>) -> bool {
    match r {
        Ok(st) => expected == Some((stmt_model(&st), after.input.index as int)),
        Err(_) => expected is None,
    }
}

/// Recursive-descent parser over a token buffer.
pub struct Parser {
    pub input: Tokens,
}

impl Parser {
    pub open spec fn remaining(&self) -> int {
        self.input.input@.len() - self.input.index
    }

    /// The parser reads the same tokens and has not moved back.
    pub open spec fn moved_on(&self, next: &Parser) -> bool {
        &&& next.input.wf()
        &&& next.input.input == self.input.input
        &&& self.input.index <= next.input.index
    }

    /// The kinds of the tokens being parsed.
    pub open spec fn token_kinds(&self) -> Seq<TokenKind> {
        kinds(self.input.input@)
    }

    pub fn new(tokens: Vec<Token>) -> (r: Parser)
        ensures
            r.input.input == tokens,
            r.input.index == 0,
    {
        Parser { input: Tokens::new(tokens) }
    }

    /// Is the current token of the same kind as `kind`?
    fn current_is(&self, kind: &TokenType) -> (r: bool)
        requires
            self.input.wf(),
            is_simple(kind@),
        ensures
            r ==> self.input.index < self.input.input@.len(),
            r == at(kinds(self.input.input@), self.input.index as int, kind@),
    {
        match self.input.current() {
            Some(t) => kind_index(&t.token_type) == kind_index(kind),
            None => false,
        }
    }

    /// Consumes a token that must be of the kind of `kind`.
    fn should_be(&mut self, kind: TokenType) -> (r: Result<(), ParserError>)
        requires
            old(self).input.wf(),
            is_simple(kind@),
        ensures
            old(self).moved_on(final(self)),
            r is Ok <==> at(kinds(old(self).input.input@), old(self).input.index as int, kind@),
            r is Ok ==> final(self).input.index == old(self).input.index + 1,
    {
        match self.input.consume() {
            Some(t) => {
                if kind_index(&t.token_type) == kind_index(&kind) {
                    Ok(())
                } else {
                    Err(ParserError::unexpected_token(t, kind))
                }
            },
            None => Err(ParserError::eof()),
        }
    }

    /// Parses a whole program: statements until the tokens run out.
    pub fn parse(&mut self) -> (r: Result<Vec<Statement>, ParserError>)
        requires
            old(self).input.wf(),
        ensures
            old(self).moved_on(final(self)),
            r is Ok ==> final(self).input.index == final(self).input.input@.len(),
            match r {
                Ok(p) => parse_program(old(self).token_kinds(), old(self).input.index as int, Seq::empty()) == Some(
                    stmts_model(p@),
                ),
                Err(_) => parse_program(old(self).token_kinds(), old(self).input.index as int, Seq::empty()) is None,
            },
            old(self).remaining() == 0 ==> (r matches Ok(p) && p@.len() == 0),
    {
        let ghost ks = old(self).token_kinds();
        let ghost goal = parse_program(ks, old(self).input.index as int, Seq::empty());
        let mut program: Vec<Statement> = Vec::new();
        proof {
            assert(stmts_model(program@) =~= Seq::<StmtModel>::empty());
        }
        while self.input.index < self.input.input.len()
            invariant
                old(self).moved_on(self),
                ks == self.token_kinds(),
                goal == parse_program(ks, self.input.index as int, stmts_model(program@)),
                ks == old(self).token_kinds(),
                goal == parse_program(old(self).token_kinds(), old(self).input.index as int, Seq::empty()),
                old(self).remaining() == 0 ==> program@.len() == 0,
            decreases self.remaining(),
        {
            let ghost done = stmts_model(program@);
            let stmt = self.statement()?;
            let ghost sm = stmt_model(&stmt);
            program.push(stmt);
            proof {
                assert(stmts_model(program@) =~= done.push(sm));
            }
        }
        Ok(program)
    }

    /// Parses one statement.
    pub fn statement(&mut self) -> (r: Result<Statement, ParserError>)
        requires
            old(self).input.wf(),
        ensures
            old(self).moved_on(final(self)),
            r is Ok ==> final(self).input.index > old(self).input.index,
            stmt_parsed_as(parse_statement(old(self).token_kinds(), old(self).input.index as int), final(self), r),
        decreases old(self).remaining(), 7int,
    {
        let kind = match self.input.current() {
            Some(t) => kind_index(&t.token_type),
            None => {
                return Err(ParserError::eof());
            },
        };
        if kind == kind_index(&TokenType::Var) {
            self.declaration()
        } else if kind == kind_index(&TokenType::If) {
            self.if_statement()
        } else if kind == kind_index(&TokenType::While) {
            self.while_statement()
        } else if kind == kind_index(&TokenType::Func) {
            self.function_statement()
        } else if kind == kind_index(&TokenType::Return) {
            self.return_statement()
        } else if kind == kind_index(&TokenType::LeftBracket) {
            self.block()
        } else {
            self.simple_statement()
        }
    }

    /// `var x = e`
    fn declaration(&mut self) -> (r: Result<Statement, ParserError>)
        requires
            old(self).input.wf(),
            at(old(self).token_kinds(), old(self).input.index as int, TokenKind::Var),
        ensures
            old(self).moved_on(final(self)),
            r is Ok ==> final(self).input.index > old(self).input.index,
            stmt_parsed_as(parse_statement(old(self).token_kinds(), old(self).input.index as int), final(self), r),
        decreases old(self).remaining(), 6int,
    {
        let var_token = copy_token(self.input.current().unwrap());
        self.input.advance();
        let identifier = match self.input.consume() {
            Some(t) => match &t.token_type {
                TokenType::Identifier(ident) => ident.clone(),
                _ => {
                    return Err(ParserError::unexpected(&var_token, "identifier"));
                },
            },
            None => {
                return Err(ParserError::eof());
            },
        };
        self.should_be(TokenType::Assign)?;
        let expr = self.expression()?;
        let mut variables: Vec<String> = Vec::new();
        variables.push(identifier);
        proof {
            assert(names_model(variables@) =~= seq![variables@[0]@]);
        }
        Ok(Statement::Declaration { variables, initializer: Some(expr) })
    }

    /// An expression statement, or an assignment where the statement starts
    /// with a name and `=` follows the first expression.
    fn simple_statement(&mut self) -> (r: Result<Statement, ParserError>)
        requires
            old(self).input.wf(),
            old(self).input.index < old(self).input.input@.len(),
        ensures
            old(self).moved_on(final(self)),
            r is Ok ==> final(self).input.index > old(self).input.index,
            stmt_parsed_as(parse_simple(old(self).token_kinds(), old(self).input.index as int), final(self), r),
        decreases old(self).remaining(), 6int,
    {
        let starts_with_name = match self.input.current() {
            Some(t) => kind_index(&t.token_type) == 0,
            None => false,
        };
        let expr = self.expression()?;
        if starts_with_name && self.current_is(&TokenType::Assign) {
            self.input.consume();
            let value = self.expression()?;
            Ok(Statement::Assignment { assignee: expr, expr: value })
        } else {
            Ok(Statement::Expression(expr))
        }
    }

    /// `if e s (else s)?`
    fn if_statement(&mut self) -> (r: Result<Statement, ParserError>)
        requires
            old(self).input.wf(),
            at(old(self).token_kinds(), old(self).input.index as int, TokenKind::If),
        ensures
            old(self).moved_on(final(self)),
            r is Ok ==> final(self).input.index > old(self).input.index,
            stmt_parsed_as(parse_statement(old(self).token_kinds(), old(self).input.index as int), final(self), r),
        decreases old(self).remaining(), 6int,
    {
        self.input.advance();
        let condition = self.expression()?;
        let if_body = self.statement()?;
        let else_body = if self.current_is(&TokenType::Else) {
            self.input.advance();
            Some(Box::new(self.statement()?))
        } else {
            None
        };
        Ok(Statement::If { condition, if_body: Box::new(if_body), else_body })
    }

    /// `while e s`
    fn while_statement(&mut self) -> (r: Result<Statement, ParserError>)
        requires
            old(self).input.wf(),
            at(old(self).token_kinds(), old(self).input.index as int, TokenKind::While),
        ensures
            old(self).moved_on(final(self)),
            r is Ok ==> final(self).input.index > old(self).input.index,
            stmt_parsed_as(parse_statement(old(self).token_kinds(), old(self).input.index as int), final(self), r),
        decreases old(self).remaining(), 6int,
    {
        self.input.advance();
        let condition = self.expression()?;
        let body = self.statement()?;
        Ok(Statement::While { condition, body: Box::new(body) })
    }

    /// `return e`
    fn return_statement(&mut self) -> (r: Result<Statement, ParserError>)
        requires
            old(self).input.wf(),
            at(old(self).token_kinds(), old(self).input.index as int, TokenKind::Return),
        ensures
            old(self).moved_on(final(self)),
            r is Ok ==> final(self).input.index > old(self).input.index,
            stmt_parsed_as(parse_statement(old(self).token_kinds(), old(self).input.index as int), final(self), r),
        decreases old(self).remaining(), 6int,
    {
        self.input.consume();
        let expr = self.expression()?;
        Ok(Statement::Return(expr))
    }

    /// `fn name(params) s`
    fn function_statement(&mut self) -> (r: Result<Statement, ParserError>)
        requires
            old(self).input.wf(),
            at(old(self).token_kinds(), old(self).input.index as int, TokenKind::Func),
        ensures
            old(self).moved_on(final(self)),
            r is Ok ==> final(self).input.index > old(self).input.index,
            stmt_parsed_as(parse_statement(old(self).token_kinds(), old(self).input.index as int), final(self), r),
        decreases old(self).remaining(), 6int,
    {
        let func_token = copy_token(self.input.current().unwrap());
        let name = match self.input.advance() {
            Some(t) => match &t.token_type {
                TokenType::Identifier(ident) => ident.clone(),
                _ => {
                    return Err(ParserError::unexpected(&func_token, "identifier"));
                },
            },
            None => {
                return Err(ParserError::unexpected(&func_token, "identifier"));
            },
        };
        self.input.advance();
        self.should_be(TokenType::LeftParen)?;
        let ghost ks = old(self).token_kinds();
        let ghost goal = parse_params(ks, old(self).input.index + 3, Seq::empty());
        let mut params: Vec<String> = Vec::new();
        proof {
            assert(names_model(params@) =~= Seq::<Seq<char>>::empty());
        }
        loop
            invariant_except_break
                goal == parse_params(ks, self.input.index as int, names_model(params@)),
            invariant
                old(self).moved_on(self),
                ks == self.token_kinds(),
                self.input.index > old(self).input.index,
            ensures
                goal == (names_model(params@), self.input.index as int),
            decreases self.remaining(),
        {
            let ghost i = self.input.index as int;
            let ghost done = names_model(params@);
            let ident = match self.input.current() {
                Some(t) => match &t.token_type {
                    TokenType::Identifier(ident) => ident.clone(),
                    _ => {
                        break;
                    },
                },
                None => {
                    break;
                },
            };
            params.push(ident);
            proof {
                assert(names_model(params@) =~= done.push(ks[i]->Identifier_0));
            }
            self.input.advance();
            if self.current_is(&TokenType::Comma) {
                self.input.consume();
            } else {
                break;
            }
        }
        self.should_be(TokenType::RightParen)?;
        let body = self.statement()?;
        Ok(Statement::Function { name, params: Rc::new(params), body: Rc::new(body) })
    }

    /// `{ s* }`
    fn block(&mut self) -> (r: Result<Statement, ParserError>)
        requires
            old(self).input.wf(),
            at(old(self).token_kinds(), old(self).input.index as int, TokenKind::LeftBracket),
        ensures
            old(self).moved_on(final(self)),
            r is Ok ==> final(self).input.index > old(self).input.index,
            stmt_parsed_as(parse_statement(old(self).token_kinds(), old(self).input.index as int), final(self), r),
        decreases old(self).remaining(), 6int,
    {
        self.input.advance();
        let ghost ks = old(self).token_kinds();
        let ghost goal = parse_statement(ks, old(self).input.index as int);
        let mut body: Vec<Statement> = Vec::new();
        proof {
            assert(stmts_model(body@) =~= Seq::<StmtModel>::empty());
        }
        loop
            invariant_except_break
                goal == parse_block(ks, self.input.index as int, stmts_model(body@)),
            invariant
                old(self).moved_on(self),
                ks == self.token_kinds(),
                ks == old(self).token_kinds(),
                goal == parse_statement(old(self).token_kinds(), old(self).input.index as int),
                self.input.index > old(self).input.index,
            ensures
                goal == Some((StmtModel::Block(stmts_model(body@)), self.input.index as int)),
            decreases self.remaining(),
        {
            if self.input.current().is_none() {
                return Err(ParserError::eof());
            }
            if self.current_is(&TokenType::RightBracket) {
                self.input.advance();
                break;
            }
            let ghost done = stmts_model(body@);
            let stmt = self.statement()?;
            let ghost sm = stmt_model(&stmt);
            body.push(stmt);
            proof {
                assert(stmts_model(body@) =~= done.push(sm));
            }
        }
        let r = Statement::Block(body);
        proof {
            if let Statement::Block(b) = &r {
                assert(stmt_model(&r)->Block_0 =~= stmts_model(b@));
            }
        }
        Ok(r)
    }

    /// Parses an expression.
    pub fn expression(&mut self) -> (r: Result<Expression, ParserError>)
        requires
            old(self).input.wf(),
        ensures
            old(self).moved_on(final(self)),
            r is Ok ==> final(self).input.index > old(self).input.index,
            parsed_as(parse_expression(old(self).token_kinds(), old(self).input.index as int), final(self), r),
        decreases old(self).remaining(), 5int,
    {
        self.condition()
    }

    /// `addition (comparison-operator condition)?`
    fn condition(&mut self) -> (r: Result<Expression, ParserError>)
        requires
            old(self).input.wf(),
        ensures
            old(self).moved_on(final(self)),
            r is Ok ==> final(self).input.index > old(self).input.index,
            parsed_as(parse_condition(old(self).token_kinds(), old(self).input.index as int), final(self), r),
        decreases old(self).remaining(), 4int,
    {
        let left = self.addition()?;
        let op = match self.input.current() {
            Some(t) => comparison_op(&t.token_type),
            None => None,
        };
        match op {
            Some(operator) => {
                self.input.consume();
                let right = self.condition()?;
                Ok(Expression::Condition { left: Box::new(left), right: Box::new(right), operator })
            },
            None => Ok(left),
        }
    }

    /// `multiplication (('+' | '-') addition)?`
    fn addition(&mut self) -> (r: Result<Expression, ParserError>)
        requires
            old(self).input.wf(),
        ensures
            old(self).moved_on(final(self)),
            r is Ok ==> final(self).input.index > old(self).input.index,
            parsed_as(parse_addition(old(self).token_kinds(), old(self).input.index as int), final(self), r),
        decreases old(self).remaining(), 3int,
    {
        let left = self.multiplication()?;
        let op = match self.input.current() {
            Some(t) => addition_op(&t.token_type),
            None => None,
        };
        match op {
            Some(operator) => {
                self.input.consume();
                let right = self.addition()?;
                Ok(Expression::Addition { left: Box::new(left), right: Box::new(right), operator })
            },
            None => Ok(left),
        }
    }

    /// `factor (('*' | '/') multiplication)?`
    fn multiplication(&mut self) -> (r: Result<Expression, ParserError>)
        requires
            old(self).input.wf(),
        ensures
            old(self).moved_on(final(self)),
            r is Ok ==> final(self).input.index > old(self).input.index,
            parsed_as(parse_multiplication(old(self).token_kinds(), old(self).input.index as int), final(self), r),
        decreases old(self).remaining(), 2int,
    {
        let left = self.factor()?;
        let op = match self.input.current() {
            Some(t) => multiplication_op(&t.token_type),
            None => None,
        };
        match op {
            Some(operator) => {
                self.input.consume();
                let right = self.multiplication()?;
                Ok(Expression::Multiplication { left: Box::new(left), right: Box::new(right), operator })
            },
            None => Ok(left),
        }
    }

    /// A literal, a variable or a parenthesised expression, then its suffixes.
    #[verifier::rlimit(40)]
    fn factor(&mut self) -> (r: Result<Expression, ParserError>)
        requires
            old(self).input.wf(),
        ensures
            old(self).moved_on(final(self)),
            r is Ok ==> final(self).input.index > old(self).input.index,
            parsed_as(parse_factor(old(self).token_kinds(), old(self).input.index as int), final(self), r),
        decreases old(self).remaining(), 1int,
    {
        let next = match self.input.consume() {
            Some(t) => copy_token(t),
            None => {
                return Err(ParserError::eof());
            },
        };
        let base = match &next.token_type {
            TokenType::Number(value) => Expression::Value(Literal::Number(*value)),
            TokenType::Str(text) => Expression::Value(Literal::Str(text.clone())),
            TokenType::Boolean(b) => Expression::Value(Literal::Boolean(*b)),
            TokenType::Null => Expression::Value(Literal::Null),
            TokenType::Identifier(identifier) => Expression::Variable(
                VariableExpression { identifier: identifier.clone() },
            ),
            TokenType::LeftParen => {
                let expr = self.expression()?;
                self.should_be(TokenType::RightParen)?;
                expr
            },
            _ => {
                return Err(ParserError::unexpected(&next, "factor"));
            },
        };
        self.call_and_access(base)
    }

    /// Wraps `base` in each call `(args)`, index `[expr]` and access `.field`
    /// that follows, left to right.
    fn call_and_access(&mut self, base: Expression) -> (r: Result<Expression, ParserError>)
        requires
            old(self).input.wf(),
        ensures
            old(self).moved_on(final(self)),
            parsed_as(parse_suffixes(old(self).token_kinds(), model(&base), old(self).input.index as int), final(self), r),
        decreases old(self).remaining(), 0int,
    {
        let ghost ks = old(self).token_kinds();
        let ghost goal = parse_suffixes(ks, model(&base), old(self).input.index as int);
        let ghost m0 = model(&base);
        let mut expr = base;
        loop
            invariant
                old(self).moved_on(self),
                ks == old(self).token_kinds(),
                goal == parse_suffixes(old(self).token_kinds(), m0, old(self).input.index as int),
                m0 == model(&base),
                ks == self.token_kinds(),
                goal == parse_suffixes(ks, model(&expr), self.input.index as int),
            decreases self.remaining(),
        {
            let ghost start = self.input.index;
            if self.current_is(&TokenType::LeftParen) {
                self.input.advance();
                let mut args: Vec<Expression> = Vec::new();
                let ghost args_goal = parse_arguments(ks, start + 1, Seq::empty());
                proof {
                    assert(args_model(args@) =~= Seq::<ExprModel>::empty());
                }
                loop
                    invariant_except_break
                        args_goal == parse_arguments(ks, self.input.index as int, args_model(args@)),
                    invariant
                        old(self).moved_on(self),
                        ks == self.token_kinds(),
                        ks == old(self).token_kinds(),
                        goal == parse_suffixes(old(self).token_kinds(), m0, old(self).input.index as int),
                        m0 == model(&base),
                        self.input.index > start,
                        start >= old(self).input.index,
                        at(ks, start as int, TokenKind::LeftParen),
                        goal == parse_suffixes(ks, model(&expr), start as int),
                        args_goal == parse_arguments(ks, start + 1, Seq::empty()),
                    ensures
                        args_goal == Some((args_model(args@), self.input.index as int)),
                    decreases self.remaining(),
                {
                    if self.input.current().is_none() || self.current_is(&TokenType::RightParen) {
                        break;
                    }
                    let ghost i = self.input.index as int;
                    let ghost n = args_model(args@);
                    let arg = match self.expression() {
                        Ok(arg) => arg,
                        Err(e) => {
                            proof {
                                assert(parse_arguments(ks, i, n) is None);
                                assert(goal is None);
                            }
                            return Err(e);
                        },
                    };
                    let ghost am = model(&arg);
                    args.push(arg);
                    proof {
                        assert(args_model(args@) =~= n.push(am));
                    }
                    if self.current_is(&TokenType::Comma) {
                        self.input.consume();
                        proof {
                            assert(parse_arguments(ks, i, n) == parse_arguments(ks, self.input.index as int, args_model(args@)));
                        }
                    } else {
                        proof {
                            assert(parse_arguments(ks, i, n) == Some((args_model(args@), self.input.index as int)));
                        }
                        break;
                    }
                }
                match self.should_be(TokenType::RightParen) {
                    Ok(()) => {},
                    Err(e) => {
                        proof {
                            assert(goal is None);
                        }
                        return Err(e);
                    },
                }
                let ghost before = model(&expr);
                let ghost am = args_model(args@);
                expr = Expression::Call { callee: Box::new(expr), args };
                proof {
                    let ghost m = model(&expr);
                    if let Expression::Call { callee, args } = &expr {
                        let ghost inner = Seq::new(
                            args@.len(),
                            |k: int| if 0 <= k < args@.len() { model(&args@[k]) } else { ExprModel::Null },
                        );
                        assert(am =~= inner);
                        assert(m is Call);
                        assert(m->Call_1 =~= inner);
                        assert(m == ExprModel::Call(Box::new(model(&**callee)), inner));
                        assert(model(&**callee) == before);
                    }
                    assert(m == ExprModel::Call(Box::new(before), am));
                }
            } else if self.current_is(&TokenType::LeftBrace) {
                self.input.advance();
                let index = match self.expression() {
                    Ok(index) => index,
                    Err(e) => {
                        proof {
                            assert(goal is None);
                        }
                        return Err(e);
                    },
                };
                match self.should_be(TokenType::RightBrace) {
                    Ok(()) => {},
                    Err(e) => {
                        proof {
                            assert(goal is None);
                        }
                        return Err(e);
                    },
                }
                let ghost before = model(&expr);
                expr = Expression::Index { target: Box::new(expr), index: Box::new(index) };
                proof {
                    assert(model(&expr) == ExprModel::Index(Box::new(before), Box::new(model(&index))));
                }
            } else if self.current_is(&TokenType::Dot) {
                self.input.advance();
                let field = match self.input.consume() {
                    Some(t) => match &t.token_type {
                        TokenType::Identifier(ident) => ident.clone(),
                        _ => {
                            return Err(ParserError::unexpected(t, "object"));
                        },
                    },
                    None => {
                        return Err(ParserError::eof());
                    },
                };
                expr = Expression::Access { target: Box::new(expr), field };
            } else {
                proof {
                    assert(goal == Some((model(&expr), self.input.index as int)));
                }
                return Ok(expr);
            }
        }
    }
}

} // verus!
