use vstd::prelude::*;

verus! {

/// A lexical token of the source language.
#[derive(Debug)]
pub enum Token {
    // Keywords
    Void,
    Int32,
    Bool,
    String,
    If,
    Else,
    While,
    For,
    Return,
    IPrint,
    SPrint,
    // Literals
    Integer(i32),
    StringLiteral(String),
    BoolLiteral(bool),
    Identifier(String),
    // Operators
    Equal,
    EqualEqual,
    Not,
    NotEqual,
    LessThan,
    LessThanEqual,
    GreaterThan,
    GreaterThanEqual,
    Plus,
    Minus,
    PlusPlus,
    MinusMinus,
    // Delimiters
    LeftParen,
    RightParen,
    LeftBrace,
    RightBrace,
    Comma,
    Semicolon,
    // End of the token stream
    Eof,
}

/// The mathematical value of a token: text payloads become character sequences.
pub enum TokenV {
    Void,
    Int32,
    Bool,
    String,
    If,
    Else,
    While,
    For,
    Return,
    IPrint,
    SPrint,
    Integer(i32),
    StringLiteral(Seq<char>),
    BoolLiteral(bool),
    Identifier(Seq<char>),
    Equal,
    EqualEqual,
    Not,
    NotEqual,
    LessThan,
    LessThanEqual,
    GreaterThan,
    GreaterThanEqual,
    Plus,
    Minus,
    PlusPlus,
    MinusMinus,
    LeftParen,
    RightParen,
    LeftBrace,
    RightBrace,
    Comma,
    Semicolon,
    Eof,
}

impl Token {
    pub open spec fn view(&self) -> TokenV {
        match self {
            Token::Void => TokenV::Void,
            Token::Int32 => TokenV::Int32,
            Token::Bool => TokenV::Bool,
            Token::String => TokenV::String,
            Token::If => TokenV::If,
            Token::Else => TokenV::Else,
            Token::While => TokenV::While,
            Token::For => TokenV::For,
            Token::Return => TokenV::Return,
            Token::IPrint => TokenV::IPrint,
            Token::SPrint => TokenV::SPrint,
            Token::Integer(n) => TokenV::Integer(*n),
            Token::StringLiteral(s) => TokenV::StringLiteral(s@),
            Token::BoolLiteral(b) => TokenV::BoolLiteral(*b),
            Token::Identifier(s) => TokenV::Identifier(s@),
            Token::Equal => TokenV::Equal,
            Token::EqualEqual => TokenV::EqualEqual,
            Token::Not => TokenV::Not,
            Token::NotEqual => TokenV::NotEqual,
            Token::LessThan => TokenV::LessThan,
            Token::LessThanEqual => TokenV::LessThanEqual,
            Token::GreaterThan => TokenV::GreaterThan,
            Token::GreaterThanEqual => TokenV::GreaterThanEqual,
            Token::Plus => TokenV::Plus,
            Token::Minus => TokenV::Minus,
            Token::PlusPlus => TokenV::PlusPlus,
            Token::MinusMinus => TokenV::MinusMinus,
            Token::LeftParen => TokenV::LeftParen,
            Token::RightParen => TokenV::RightParen,
            Token::LeftBrace => TokenV::LeftBrace,
            Token::RightBrace => TokenV::RightBrace,
            Token::Comma => TokenV::Comma,
            Token::Semicolon => TokenV::Semicolon,
            Token::Eof => TokenV::Eof,
        }
    }

    /// The name of the token's kind, as used in diagnostics.
    pub fn kind_name(&self) -> (r: &'static str)
        ensures
            r@ == kind_name(self.view()),
    {
        match self {
            Token::Void => "Void",
            Token::Int32 => "Int32",
            Token::Bool => "Bool",
            Token::String => "String",
            Token::If => "If",
            Token::Else => "Else",
            Token::While => "While",
            Token::For => "For",
            Token::Return => "Return",
            Token::IPrint => "IPrint",
            Token::SPrint => "SPrint",
            Token::Integer(_) => "Integer",
            Token::StringLiteral(_) => "StringLiteral",
            Token::BoolLiteral(_) => "BoolLiteral",
            Token::Identifier(_) => "Identifier",
            Token::Equal => "Equal",
            Token::EqualEqual => "EqualEqual",
            Token::Not => "Not",
            Token::NotEqual => "NotEqual",
            Token::LessThan => "LessThan",
            Token::LessThanEqual => "LessThanEqual",
            Token::GreaterThan => "GreaterThan",
            Token::GreaterThanEqual => "GreaterThanEqual",
            Token::Plus => "Plus",
            Token::Minus => "Minus",
            Token::PlusPlus => "PlusPlus",
            Token::MinusMinus => "MinusMinus",
            Token::LeftParen => "LeftParen",
            Token::RightParen => "RightParen",
            Token::LeftBrace => "LeftBrace",
            Token::RightBrace => "RightBrace",
            Token::Comma => "Comma",
            Token::Semicolon => "Semicolon",
            Token::Eof => "Eof",
        }
    }
}

impl PartialEq for Token {
    fn eq(&self, other: &Token) -> (r: bool)
        ensures
            r == (self.view() == other.view()),
    {
        match (self, other) {
            (Token::Void, Token::Void) => true,
            (Token::Int32, Token::Int32) => true,
            (Token::Bool, Token::Bool) => true,
            (Token::String, Token::String) => true,
            (Token::If, Token::If) => true,
            (Token::Else, Token::Else) => true,
            (Token::While, Token::While) => true,
            (Token::For, Token::For) => true,
            (Token::Return, Token::Return) => true,
            (Token::IPrint, Token::IPrint) => true,
            (Token::SPrint, Token::SPrint) => true,
            (Token::Integer(a), Token::Integer(b)) => *a == *b,
            (Token::StringLiteral(a), Token::StringLiteral(b)) => *a == *b,
            (Token::BoolLiteral(a), Token::BoolLiteral(b)) => *a == *b,
            (Token::Identifier(a), Token::Identifier(b)) => *a == *b,
            (Token::Equal, Token::Equal) => true,
            (Token::EqualEqual, Token::EqualEqual) => true,
            (Token::Not, Token::Not) => true,
            (Token::NotEqual, Token::NotEqual) => true,
            (Token::LessThan, Token::LessThan) => true,
            (Token::LessThanEqual, Token::LessThanEqual) => true,
            (Token::GreaterThan, Token::GreaterThan) => true,
            (Token::GreaterThanEqual, Token::GreaterThanEqual) => true,
            (Token::Plus, Token::Plus) => true,
            (Token::Minus, Token::Minus) => true,
            (Token::PlusPlus, Token::PlusPlus) => true,
            (Token::MinusMinus, Token::MinusMinus) => true,
            (Token::LeftParen, Token::LeftParen) => true,
            (Token::RightParen, Token::RightParen) => true,
            (Token::LeftBrace, Token::LeftBrace) => true,
            (Token::RightBrace, Token::RightBrace) => true,
            (Token::Comma, Token::Comma) => true,
            (Token::Semicolon, Token::Semicolon) => true,
            (Token::Eof, Token::Eof) => true,
            _ => false,
        }
    }
}

impl vstd::std_specs::cmp::PartialEqSpecImpl for Token {
    open spec fn obeys_eq_spec() -> bool {
        true
    }

    open spec fn eq_spec(&self, other: &Token) -> bool {
        self.view() == other.view()
    }
}

/// The name of a token's kind, as diagnostics show it.
pub open spec fn kind_name(t: TokenV) -> Seq<char> {
    match t {
        TokenV::Void => "Void"@,
        TokenV::Int32 => "Int32"@,
        TokenV::Bool => "Bool"@,
        TokenV::String => "String"@,
        TokenV::If => "If"@,
        TokenV::Else => "Else"@,
        TokenV::While => "While"@,
        TokenV::For => "For"@,
        TokenV::Return => "Return"@,
        TokenV::IPrint => "IPrint"@,
        TokenV::SPrint => "SPrint"@,
        TokenV::Integer(_) => "Integer"@,
        TokenV::StringLiteral(_) => "StringLiteral"@,
        TokenV::BoolLiteral(_) => "BoolLiteral"@,
        TokenV::Identifier(_) => "Identifier"@,
        TokenV::Equal => "Equal"@,
        TokenV::EqualEqual => "EqualEqual"@,
        TokenV::Not => "Not"@,
        TokenV::NotEqual => "NotEqual"@,
        TokenV::LessThan => "LessThan"@,
        TokenV::LessThanEqual => "LessThanEqual"@,
        TokenV::GreaterThan => "GreaterThan"@,
        TokenV::GreaterThanEqual => "GreaterThanEqual"@,
        TokenV::Plus => "Plus"@,
        TokenV::Minus => "Minus"@,
        TokenV::PlusPlus => "PlusPlus"@,
        TokenV::MinusMinus => "MinusMinus"@,
        TokenV::LeftParen => "LeftParen"@,
        TokenV::RightParen => "RightParen"@,
        TokenV::LeftBrace => "LeftBrace"@,
        TokenV::RightBrace => "RightBrace"@,
        TokenV::Comma => "Comma"@,
        TokenV::Semicolon => "Semicolon"@,
        TokenV::Eof => "Eof"@,
    }
}

/// The values of a token sequence.
pub open spec fn tokens_view(ts: Seq<Token>) -> Seq<TokenV> {
    ts.map_values(|t: Token| t.view())
}

} // verus!
