use vstd::prelude::*;

verus! {

/// The kinds of token the scanner produces.
pub enum TokenType {
    Identifier(String),
    Number(i64),
    Str(String),
    Boolean(bool),
    Plus,
    Minus,
    Star,
    Slash,
    Assign,
    And,
    Or,
    Not,
    BitAnd,
    BitOr,
    Equals,
    NotEquals,
    Greater,
    Lesser,
    EqGreater,
    EqLesser,
    Var,
    Func,
    If,
    Else,
    While,
    LeftBracket,
    RightBracket,
    LeftParen,
    RightParen,
    LeftBrace,
    RightBrace,
    Comma,
    Dot,
    Return,
    Null,
}

/// Mathematical model of a token kind: payloads are sequences and integers.
pub enum TokenKind {
    Identifier(Seq<char>),
    Number(int),
    Str(Seq<char>),
    Boolean(bool),
    Plus,
    Minus,
    Star,
    Slash,
    Assign,
    And,
    Or,
    Not,
    BitAnd,
    BitOr,
    Equals,
    NotEquals,
    Greater,
    Lesser,
    EqGreater,
    EqLesser,
    Var,
    Func,
    If,
    Else,
    While,
    LeftBracket,
    RightBracket,
    LeftParen,
    RightParen,
    LeftBrace,
    RightBrace,
    Comma,
    Dot,
    Return,
    Null,
}

impl View for TokenType {
    type V = TokenKind;

    open spec fn view(&self) -> TokenKind {
        match self {
            TokenType::Identifier(s) => TokenKind::Identifier(s@),
            TokenType::Number(n) => TokenKind::Number(*n as int),
            TokenType::Str(s) => TokenKind::Str(s@),
            TokenType::Boolean(b) => TokenKind::Boolean(*b),
            TokenType::Plus => TokenKind::Plus,
            TokenType::Minus => TokenKind::Minus,
            TokenType::Star => TokenKind::Star,
            TokenType::Slash => TokenKind::Slash,
            TokenType::Assign => TokenKind::Assign,
            TokenType::And => TokenKind::And,
            TokenType::Or => TokenKind::Or,
            TokenType::Not => TokenKind::Not,
            TokenType::BitAnd => TokenKind::BitAnd,
            TokenType::BitOr => TokenKind::BitOr,
            TokenType::Equals => TokenKind::Equals,
            TokenType::NotEquals => TokenKind::NotEquals,
            TokenType::Greater => TokenKind::Greater,
            TokenType::Lesser => TokenKind::Lesser,
            TokenType::EqGreater => TokenKind::EqGreater,
            TokenType::EqLesser => TokenKind::EqLesser,
            TokenType::Var => TokenKind::Var,
            TokenType::Func => TokenKind::Func,
            TokenType::If => TokenKind::If,
            TokenType::Else => TokenKind::Else,
            TokenType::While => TokenKind::While,
            TokenType::LeftBracket => TokenKind::LeftBracket,
            TokenType::RightBracket => TokenKind::RightBracket,
            TokenType::LeftParen => TokenKind::LeftParen,
            TokenType::RightParen => TokenKind::RightParen,
            TokenType::LeftBrace => TokenKind::LeftBrace,
            TokenType::RightBrace => TokenKind::RightBrace,
            TokenType::Comma => TokenKind::Comma,
            TokenType::Dot => TokenKind::Dot,
            TokenType::Return => TokenKind::Return,
            TokenType::Null => TokenKind::Null,
        }
    }
}

impl TokenType {
    /// A copy of the token kind with the same model.
    pub fn duplicate(&self) -> (r: TokenType)
        ensures
            r@ == self@,
    {
        match self {
            TokenType::Identifier(s) => TokenType::Identifier(s.clone()),
            TokenType::Number(n) => TokenType::Number(*n),
            TokenType::Str(s) => TokenType::Str(s.clone()),
            TokenType::Boolean(b) => TokenType::Boolean(*b),
            TokenType::Plus => TokenType::Plus,
            TokenType::Minus => TokenType::Minus,
            TokenType::Star => TokenType::Star,
            TokenType::Slash => TokenType::Slash,
            TokenType::Assign => TokenType::Assign,
            TokenType::And => TokenType::And,
            TokenType::Or => TokenType::Or,
            TokenType::Not => TokenType::Not,
            TokenType::BitAnd => TokenType::BitAnd,
            TokenType::BitOr => TokenType::BitOr,
            TokenType::Equals => TokenType::Equals,
            TokenType::NotEquals => TokenType::NotEquals,
            TokenType::Greater => TokenType::Greater,
            TokenType::Lesser => TokenType::Lesser,
            TokenType::EqGreater => TokenType::EqGreater,
            TokenType::EqLesser => TokenType::EqLesser,
            TokenType::Var => TokenType::Var,
            TokenType::Func => TokenType::Func,
            TokenType::If => TokenType::If,
            TokenType::Else => TokenType::Else,
            TokenType::While => TokenType::While,
            TokenType::LeftBracket => TokenType::LeftBracket,
            TokenType::RightBracket => TokenType::RightBracket,
            TokenType::LeftParen => TokenType::LeftParen,
            TokenType::RightParen => TokenType::RightParen,
            TokenType::LeftBrace => TokenType::LeftBrace,
            TokenType::RightBrace => TokenType::RightBrace,
            TokenType::Comma => TokenType::Comma,
            TokenType::Dot => TokenType::Dot,
            TokenType::Return => TokenType::Return,
            TokenType::Null => TokenType::Null,
        }
    }
}

/// A token together with the source line on which it ends.
pub struct Token {
    pub token_type: TokenType,
    pub line: usize,
    pub col: usize,
}

/// Model of a token: its kind and its line.
pub open spec fn token_model(t: Token) -> (TokenKind, nat) {
    (t.token_type@, t.line as nat)
}

} // verus!
