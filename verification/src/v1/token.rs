//! The tokens of the scripting language.

use vstd::prelude::*;

verus! {

#[derive(Debug, Clone, PartialEq)]
pub enum Token {
    String(String),
    Int(i64),
    /// A decimal literal, kept as it was written.
    Float(String),
    Identifier(String),
    Keyword(String),
    /// (
    BraceLeft,
    /// )
    BraceRight,
    /// [
    SquareBracketLeft,
    /// ]
    SquareBracketRight,
    /// {
    ParenthesisLeft,
    /// }
    ParenthesisRight,
    /// .
    Dot,
    /// :
    Colon,
    /// ::
    ScopeSymbol,
    /// =
    Assign,
    /// ,
    Comma,
    /// +
    Plus,
    /// -
    Minus,
    /// *
    Mul,
    /// /
    Div,
    /// %
    Mod,
    /// >
    Greater,
    /// <
    Less,
    /// ==
    Equal,
    /// !=
    NotEqual,
    EOF,
}

/// What a token is: its kind, the text it carries and, for an integer, its
/// value.
pub struct TokenView {
    pub id: int,
    pub text: Seq<char>,
    pub number: int,
}

pub open spec fn bare(id: int) -> TokenView {
    TokenView { id, text: Seq::empty(), number: 0 }
}

pub open spec fn worded(id: int, text: Seq<char>) -> TokenView {
    TokenView { id, text, number: 0 }
}

pub open spec fn numbered(number: int) -> TokenView {
    TokenView { id: 1, text: Seq::empty(), number }
}

impl View for Token {
    type V = TokenView;

    open spec fn view(&self) -> TokenView {
        match self {
            Token::String(s) => worded(0, s@),
            Token::Int(i) => numbered(*i as int),
            Token::Float(s) => worded(2, s@),
            Token::Identifier(s) => worded(3, s@),
            Token::Keyword(s) => worded(4, s@),
            Token::BraceLeft => bare(5),
            Token::BraceRight => bare(6),
            Token::SquareBracketLeft => bare(7),
            Token::SquareBracketRight => bare(8),
            Token::ParenthesisLeft => bare(9),
            Token::ParenthesisRight => bare(10),
            Token::Dot => bare(11),
            Token::Comma => bare(12),
            Token::EOF => bare(13),
            Token::Colon => bare(14),
            Token::Assign => bare(15),
            Token::Plus => bare(16),
            Token::Mul => bare(17),
            Token::Greater => bare(18),
            Token::Less => bare(19),
            Token::Equal => bare(20),
            Token::Minus => bare(21),
            Token::Div => bare(22),
            Token::Mod => bare(23),
            Token::ScopeSymbol => bare(24),
            Token::NotEqual => bare(25),
        }
    }
}

impl Token {
    /// The number of the token's kind.
    pub fn token_id(&self) -> (id: i8)
        ensures
            id == self@.id,
            0 <= id <= 25,
    {
        match self {
            Token::String(_) => 0,
            Token::Int(_) => 1,
            Token::Float(_) => 2,
            Token::Identifier(_) => 3,
            Token::Keyword(_) => 4,
            Token::BraceLeft => 5,
            Token::BraceRight => 6,
            Token::SquareBracketLeft => 7,
            Token::SquareBracketRight => 8,
            Token::ParenthesisLeft => 9,
            Token::ParenthesisRight => 10,
            Token::Dot => 11,
            Token::Comma => 12,
            Token::EOF => 13,
            Token::Colon => 14,
            Token::Assign => 15,
            Token::Plus => 16,
            Token::Mul => 17,
            Token::Greater => 18,
            Token::Less => 19,
            Token::Equal => 20,
            Token::Minus => 21,
            Token::Div => 22,
            Token::Mod => 23,
            Token::ScopeSymbol => 24,
            Token::NotEqual => 25,
        }
    }

    /// The name of an identifier; the empty text for any other token.
    pub fn get_identifier_value(&self) -> (s: &str)
        ensures
            s@ == (if self is Identifier { self@.text } else { Seq::<char>::empty() }),
    {
        match self {
            Token::Identifier(s) => s.as_str(),
            _ => {
                let e = "";
                proof {
                    reveal_strlit("");
                }
                e
            },
        }
    }

    /// A copy of the token.
    pub fn duplicate(&self) -> (t: Token)
        ensures
            t == *self,
    {
        match self {
            Token::String(s) => Token::String(s.clone()),
            Token::Int(i) => Token::Int(*i),
            Token::Float(s) => Token::Float(s.clone()),
            Token::Identifier(s) => Token::Identifier(s.clone()),
            Token::Keyword(s) => Token::Keyword(s.clone()),
            Token::BraceLeft => Token::BraceLeft,
            Token::BraceRight => Token::BraceRight,
            Token::SquareBracketLeft => Token::SquareBracketLeft,
            Token::SquareBracketRight => Token::SquareBracketRight,
            Token::ParenthesisLeft => Token::ParenthesisLeft,
            Token::ParenthesisRight => Token::ParenthesisRight,
            Token::Dot => Token::Dot,
            Token::Colon => Token::Colon,
            Token::ScopeSymbol => Token::ScopeSymbol,
            Token::Assign => Token::Assign,
            Token::Comma => Token::Comma,
            Token::Plus => Token::Plus,
            Token::Minus => Token::Minus,
            Token::Mul => Token::Mul,
            Token::Div => Token::Div,
            Token::Mod => Token::Mod,
            Token::Greater => Token::Greater,
            Token::Less => Token::Less,
            Token::Equal => Token::Equal,
            Token::NotEqual => Token::NotEqual,
            Token::EOF => Token::EOF,
        }
    }
}

} // verus!
