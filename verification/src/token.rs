//! The tokens of the language, as the tokenizer produces them and the parser
//! consumes them.
//!
//! A number literal is carried as the bit pattern of an IEEE-754 binary64
//! value, so that the token type stays free of floating-point fields; the
//! arithmetic on such patterns lives in `crate::num`.

use vstd::prelude::*;

verus! {

/// One lexical token. String literals keep their raw source text, quotes
/// included; identifiers keep their name; numbers are IEEE-754 binary64 bit
/// patterns.
#[derive(Debug, PartialEq)]
pub enum Token {
    And,
    Or,
    Not,
    Nil,
    Bool(bool),
    Number(u64),
    Identifier(String),
    Str(String),
    Fn,
    If,
    Then,
    Else,
    When,
    Do,
    End,
    RThinArr,
    Comma,
    LRoundParen,
    RRoundParen,
    Equal,
    Plus,
    Minus,
    Star,
    Slash,
    EqualEqual,
    BangEqual,
    Less,
    Greater,
    LessEqual,
    GreaterEqual,
}

/// The mathematical shape of a token: identifier and string payloads become
/// character sequences.
pub enum TokenV {
    And,
    Or,
    Not,
    Nil,
    Bool(bool),
    Number(u64),
    Identifier(Seq<char>),
    Str(Seq<char>),
    Fn,
    If,
    Then,
    Else,
    When,
    Do,
    End,
    RThinArr,
    Comma,
    LRoundParen,
    RRoundParen,
    Equal,
    Plus,
    Minus,
    Star,
    Slash,
    EqualEqual,
    BangEqual,
    Less,
    Greater,
    LessEqual,
    GreaterEqual,
}

impl View for Token {
    type V = TokenV;

    open spec fn view(&self) -> TokenV {
        match self {
            Token::And => TokenV::And,
            Token::Or => TokenV::Or,
            Token::Not => TokenV::Not,
            Token::Nil => TokenV::Nil,
            Token::Bool(b) => TokenV::Bool(*b),
            Token::Number(bits) => TokenV::Number(*bits),
            Token::Identifier(name) => TokenV::Identifier(name@),
            Token::Str(text) => TokenV::Str(text@),
            Token::Fn => TokenV::Fn,
            Token::If => TokenV::If,
            Token::Then => TokenV::Then,
            Token::Else => TokenV::Else,
            Token::When => TokenV::When,
            Token::Do => TokenV::Do,
            Token::End => TokenV::End,
            Token::RThinArr => TokenV::RThinArr,
            Token::Comma => TokenV::Comma,
            Token::LRoundParen => TokenV::LRoundParen,
            Token::RRoundParen => TokenV::RRoundParen,
            Token::Equal => TokenV::Equal,
            Token::Plus => TokenV::Plus,
            Token::Minus => TokenV::Minus,
            Token::Star => TokenV::Star,
            Token::Slash => TokenV::Slash,
            Token::EqualEqual => TokenV::EqualEqual,
            Token::BangEqual => TokenV::BangEqual,
            Token::Less => TokenV::Less,
            Token::Greater => TokenV::Greater,
            Token::LessEqual => TokenV::LessEqual,
            Token::GreaterEqual => TokenV::GreaterEqual,
        }
    }
}

impl Clone for Token {
    /// A clone carries the same token, payload included.
    fn clone(&self) -> (res: Self)
        ensures
            res@ == self@,
    {
        match self {
            Token::And => Token::And,
            Token::Or => Token::Or,
            Token::Not => Token::Not,
            Token::Nil => Token::Nil,
            Token::Bool(b) => Token::Bool(*b),
            Token::Number(bits) => Token::Number(*bits),
            Token::Identifier(name) => Token::Identifier(name.clone()),
            Token::Str(text) => Token::Str(text.clone()),
            Token::Fn => Token::Fn,
            Token::If => Token::If,
            Token::Then => Token::Then,
            Token::Else => Token::Else,
            Token::When => Token::When,
            Token::Do => Token::Do,
            Token::End => Token::End,
            Token::RThinArr => Token::RThinArr,
            Token::Comma => Token::Comma,
            Token::LRoundParen => Token::LRoundParen,
            Token::RRoundParen => Token::RRoundParen,
            Token::Equal => Token::Equal,
            Token::Plus => Token::Plus,
            Token::Minus => Token::Minus,
            Token::Star => Token::Star,
            Token::Slash => Token::Slash,
            Token::EqualEqual => Token::EqualEqual,
            Token::BangEqual => Token::BangEqual,
            Token::Less => Token::Less,
            Token::Greater => Token::Greater,
            Token::LessEqual => Token::LessEqual,
            Token::GreaterEqual => Token::GreaterEqual,
        }
    }
}

} // verus!
