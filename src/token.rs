//! Tokens of the SQL subset.
use vstd::prelude::*;

verus! {

/// A token of the SQL subset. `Float` keeps a decimal literal with one point
/// as it was written.
#[derive(Debug, Clone, PartialEq)]
pub enum Token {
    Select,
    From,
    Where,
    Order,
    By,
    Limit,
    Asc,
    Desc,
    Join,
    Inner,
    Left,
    Right,
    On,
    Asterisk,
    Comma,
    Semicolon,
    Dot,
    Identifier(String),
    StringLiteral(String),
    Integer(i64),
    Float(String),
    Eq,
    Neq,
    Lt,
    Gt,
    Lte,
    Gte,
    LParen,
    RParen,
    And,
    Or,
    Count,
    Sum,
    Avg,
    Min,
    Max,
}

/// What a token is: its text where it carries one, else the token itself.
pub enum TokenV {
    Sym(Token),
    Ident(Seq<char>),
    Str(Seq<char>),
    Int(i64),
    Float(Seq<char>),
}

impl View for Token {
    type V = TokenV;

    open spec fn view(&self) -> TokenV {
        match self {
            Token::Identifier(s) => TokenV::Ident(s@),
            Token::StringLiteral(s) => TokenV::Str(s@),
            Token::Integer(n) => TokenV::Int(*n),
            Token::Float(s) => TokenV::Float(s@),
            _ => TokenV::Sym(*self),
        }
    }
}

} // verus!
