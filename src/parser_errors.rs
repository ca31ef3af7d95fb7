use vstd::prelude::*;
use vstd::string::*;

use crate::display::{nat_digits, natural_text};

use crate::token::{Token, TokenType};

verus! {

/// Why parsing stopped.
pub enum ParserErrorType {
    /// The tokens ran out where one was required.
    EOF,
    /// A token other than the one described was found.
    Unexpected(String),
}

/// A parse error and the token it is about, if any.
pub struct ParserError {
    pub token: Option<Token>,
    pub err_type: ParserErrorType,
}

/// A copy of a token.
pub fn copy_token(t: &Token) -> (r: Token)
    ensures
        r.token_type@ == t.token_type@,
        r.line == t.line,
        r.col == t.col,
{
    Token { token_type: t.token_type.duplicate(), line: t.line, col: t.col }
}

/// The name of a token kind, as error messages show it.
pub fn kind_name(t: &TokenType) -> &'static str {
    match t {
        TokenType::Identifier(_) => "Identifier",
        TokenType::Number(_) => "Number",
        TokenType::Str(_) => "String",
        TokenType::Boolean(_) => "Boolean",
        TokenType::Plus => "Plus",
        TokenType::Minus => "Minus",
        TokenType::Star => "Star",
        TokenType::Slash => "Slash",
        TokenType::Assign => "Assign",
        TokenType::And => "And",
        TokenType::Or => "Or",
        TokenType::Not => "Not",
        TokenType::BitAnd => "BitAnd",
        TokenType::BitOr => "BitOr",
        TokenType::Equals => "Equals",
        TokenType::NotEquals => "NotEquals",
        TokenType::Greater => "Greater",
        TokenType::Lesser => "Lesser",
        TokenType::EqGreater => "EqGreater",
        TokenType::EqLesser => "EqLesser",
        TokenType::Var => "Var",
        TokenType::Func => "Func",
        TokenType::If => "If",
        TokenType::Else => "Else",
        TokenType::While => "While",
        TokenType::LeftBracket => "LeftBracket",
        TokenType::RightBracket => "RightBracket",
        TokenType::LeftParen => "LeftParen",
        TokenType::RightParen => "RightParen",
        TokenType::LeftBrace => "LeftBrace",
        TokenType::RightBrace => "RightBrace",
        TokenType::Comma => "Comma",
        TokenType::Dot => "Dot",
        TokenType::Return => "Return",
        TokenType::Null => "Null",
    }
}

impl ParserError {
    /// `token` was found where `should_be` was wanted.
    pub fn unexpected(token: &Token, should_be: &str) -> (r: ParserError)
        ensures
            r.token matches Some(t) && t.token_type@ == token.token_type@ && t.line == token.line,
            r.err_type matches ParserErrorType::Unexpected(s) && s@ == should_be@,
    {
        ParserError { token: Some(copy_token(token)), err_type: ParserErrorType::Unexpected(should_be.to_owned()) }
    }

    /// `token` was found where a token of kind `should_be` was wanted.
    pub fn unexpected_token(token: &Token, should_be: TokenType) -> (r: ParserError)
        ensures
            r.token matches Some(t) && t.token_type@ == token.token_type@ && t.line == token.line,
            r.err_type is Unexpected,
    {
        ParserError::unexpected(token, kind_name(&should_be))
    }

    /// The tokens ran out.
    pub fn eof() -> (r: ParserError)
        ensures
            r.token is None,
            r.err_type is EOF,
    {
        ParserError { token: None, err_type: ParserErrorType::EOF }
    }
}

impl ParserError {
    /// A one-line description of the error.
    pub fn message(&self) -> (r: String)
        ensures
            self.err_type is EOF ==> r@ == "Reached end of line while parsing"@,
            self.err_type matches ParserErrorType::Unexpected(expected) ==> (self.token matches Some(t) ==> ({
                let head = "Line "@ + nat_digits(t.line as nat) + ": expected "@ + expected@;
                head.len() <= r@.len() && r@.subrange(0, head.len() as int) == head
            })),
            self.err_type matches ParserErrorType::Unexpected(expected) ==> (self.token is None ==> r@ == "Expected "@
                + expected@ + ", reached EOF"@),
    {
        proof {
            reveal_strlit("Reached end of line while parsing");
            reveal_strlit("Line ");
            reveal_strlit(": expected ");
            reveal_strlit("Expected ");
            reveal_strlit(", reached EOF");
        }
        match &self.err_type {
            ParserErrorType::EOF => "Reached end of line while parsing".to_owned(),
            ParserErrorType::Unexpected(expected) => match &self.token {
                Some(token) => {
                    let mut r = "Line ".to_owned();
                    r.append(natural_text(token.line as u64).as_str());
                    r.append(": expected ");
                    r.append(expected.as_str());
                    let ghost head = r@;
                    r.append(", found ");
                    r.append(kind_name(&token.token_type));
                    proof {
                        assert(r@.subrange(0, head.len() as int) =~= head);
                    }
                    r
                },
                None => {
                    let mut r = "Expected ".to_owned();
                    r.append(expected.as_str());
                    r.append(", reached EOF");
                    r
                },
            },
        }
    }
}

} // verus!
