//! Lexical tokens as handed over by the scanner, and their mathematical views.
use vstd::prelude::*;

verus! {

/// The closed set of token kinds the scanner can produce.
#[derive(Clone, Copy, PartialEq, Eq, Structural, Debug)]
pub enum TokenType {
    LeftParen,
    RightParen,
    LeftBrace,
    RightBrace,
    Comma,
    Dot,
    Minus,
    Plus,
    Semicolon,
    Slash,
    Star,
    Bang,
    BangEqual,
    Equal,
    EqualEqual,
    Greater,
    GreaterEqual,
    Less,
    LessEqual,
    Identifier,
    StringLit,
    Number,
    And,
    Class,
    Else,
    False,
    Fun,
    For,
    If,
    Nil,
    Or,
    Print,
    Return,
    Super,
    This,
    True,
    Var,
    While,
    Eof,
}

/// A literal value carried by a `Number`, `StringLit`, `True`, `False` or `Nil` token.
/// Numbers are IEEE-754 double-precision values, held as their bit pattern.
pub enum Literal {
    Num(u64),
    Str(String),
    Bool(bool),
    Nil,
}

/// Mathematical view of a `Literal`.
#[verifier::ext_equal]
pub enum SpecLiteral {
    Num(u64),
    Str(Seq<char>),
    Bool(bool),
    Nil,
}

impl View for Literal {
    type V = SpecLiteral;

    open spec fn view(&self) -> SpecLiteral {
        match self {
            Literal::Num(b) => SpecLiteral::Num(*b),
            Literal::Str(s) => SpecLiteral::Str(s@),
            Literal::Bool(b) => SpecLiteral::Bool(*b),
            Literal::Nil => SpecLiteral::Nil,
        }
    }
}

impl Clone for Literal {
    fn clone(&self) -> (r: Literal)
        ensures
            r@ == self@,
    {
        match self {
            Literal::Num(b) => Literal::Num(*b),
            Literal::Str(s) => Literal::Str(s.clone()),
            Literal::Bool(b) => Literal::Bool(*b),
            Literal::Nil => Literal::Nil,
        }
    }
}

/// One token of the source program: kind, source text, optional literal value,
/// and the 1-based line it came from.
pub struct Token {
    pub token_type: TokenType,
    pub lexeme: String,
    pub literal: Option<Literal>,
    pub line: u32,
}

/// Mathematical view of a `Token`.
#[verifier::ext_equal]
pub struct SpecToken {
    pub token_type: TokenType,
    pub lexeme: Seq<char>,
    pub literal: Option<SpecLiteral>,
    pub line: u32,
}

impl View for Token {
    type V = SpecToken;

    open spec fn view(&self) -> SpecToken {
        SpecToken {
            token_type: self.token_type,
            lexeme: self.lexeme@,
            literal: match self.literal {
                Option::Some(l) => Option::Some(l@),
                Option::None => Option::None,
            },
            line: self.line,
        }
    }
}

impl Clone for Token {
    fn clone(&self) -> (r: Token)
        ensures
            r@ == self@,
    {
        Token {
            token_type: self.token_type,
            lexeme: self.lexeme.clone(),
            literal: match &self.literal {
                Option::Some(l) => Option::Some(l.clone()),
                Option::None => Option::None,
            },
            line: self.line,
        }
    }
}

} // verus!
