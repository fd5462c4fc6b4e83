//! The token model: the smallest classified units of source text, together
//! with their mathematical view used by the lexer's and parser's contracts.
use vstd::prelude::*;

verus! {

/// Arithmetic operator characters that form their own token.
#[derive(Debug, Clone, Copy, PartialEq, Eq, Structural)]
pub enum Operation {
    Plus,
    Minus,
    Asterisk,
    Slash,
}

/// Reserved words of the language.
#[derive(Debug, Clone, Copy, PartialEq, Eq, Structural)]
pub enum Keyword {
    Function,
    Return,
    Let,
    If,
    Else,
    True,
    False,
}

/// One lexical unit. Identifier and integer tokens own their text; the
/// integer text is kept in decimal form, conversion is deferred to the parser.
#[derive(Debug, Clone, PartialEq)]
pub enum Token {
    Ident(String),
    Int(String),
    Bang,
    Lt,
    Gt,
    Eq,
    Neq,
    Assign,
    Comma,
    Semicolon,
    Lparen,
    Rparen,
    Lbrace,
    Rbrace,
    Op(Operation),
    Kw(Keyword),
    Eof,
}

/// The mathematical value of a token: the same tag, with text payloads
/// abstracted to character sequences.
pub enum SpecToken {
    Ident(Seq<char>),
    Int(Seq<char>),
    Bang,
    Lt,
    Gt,
    Eq,
    Neq,
    Assign,
    Comma,
    Semicolon,
    Lparen,
    Rparen,
    Lbrace,
    Rbrace,
    Op(Operation),
    Kw(Keyword),
    Eof,
}

impl View for Token {
    type V = SpecToken;

    open spec fn view(&self) -> SpecToken {
        match self {
            Token::Ident(s) => SpecToken::Ident(s@),
            Token::Int(s) => SpecToken::Int(s@),
            Token::Bang => SpecToken::Bang,
            Token::Lt => SpecToken::Lt,
            Token::Gt => SpecToken::Gt,
            Token::Eq => SpecToken::Eq,
            Token::Neq => SpecToken::Neq,
            Token::Assign => SpecToken::Assign,
            Token::Comma => SpecToken::Comma,
            Token::Semicolon => SpecToken::Semicolon,
            Token::Lparen => SpecToken::Lparen,
            Token::Rparen => SpecToken::Rparen,
            Token::Lbrace => SpecToken::Lbrace,
            Token::Rbrace => SpecToken::Rbrace,
            Token::Op(o) => SpecToken::Op(*o),
            Token::Kw(k) => SpecToken::Kw(*k),
            Token::Eof => SpecToken::Eof,
        }
    }
}

/// A lexing failure: a byte outside every recognized character class.
#[derive(Debug, Clone, PartialEq, Eq, Structural)]
pub enum TokenError {
    Illegal(u8),
}

/// The canonical text of a token, as `Token::literal` returns it.
pub open spec fn spec_literal(t: SpecToken) -> Seq<char> {
    match t {
        SpecToken::Ident(s) => s,
        SpecToken::Int(s) => s,
        SpecToken::Bang => "!"@,
        SpecToken::Lt => "<"@,
        SpecToken::Gt => ">"@,
        SpecToken::Eq => "=="@,
        SpecToken::Neq => "!="@,
        SpecToken::Assign => "="@,
        SpecToken::Comma => ","@,
        SpecToken::Semicolon => ";"@,
        SpecToken::Lparen => "("@,
        SpecToken::Rparen => ")"@,
        SpecToken::Lbrace => "{"@,
        SpecToken::Rbrace => "}"@,
        SpecToken::Op(o) => match o {
            Operation::Plus => "+"@,
            Operation::Minus => "-"@,
            Operation::Asterisk => "*"@,
            Operation::Slash => "/"@,
        },
        SpecToken::Kw(k) => match k {
            Keyword::Function => "fn"@,
            Keyword::Return => "return"@,
            Keyword::Let => "let"@,
            Keyword::If => "if"@,
            Keyword::Else => "else"@,
            Keyword::True => "true"@,
            Keyword::False => "false"@,
        },
        SpecToken::Eof => "EOF"@,
    }
}

impl Token {
    /// An equal token: the same variant carrying equal text.
    pub fn duplicate(&self) -> (t: Token)
        ensures
            t@ == self@,
    {
        match self {
            Token::Ident(s) => Token::Ident(s.clone()),
            Token::Int(s) => Token::Int(s.clone()),
            Token::Bang => Token::Bang,
            Token::Lt => Token::Lt,
            Token::Gt => Token::Gt,
            Token::Eq => Token::Eq,
            Token::Neq => Token::Neq,
            Token::Assign => Token::Assign,
            Token::Comma => Token::Comma,
            Token::Semicolon => Token::Semicolon,
            Token::Lparen => Token::Lparen,
            Token::Rparen => Token::Rparen,
            Token::Lbrace => Token::Lbrace,
            Token::Rbrace => Token::Rbrace,
            Token::Op(o) => Token::Op(*o),
            Token::Kw(k) => Token::Kw(*k),
            Token::Eof => Token::Eof,
        }
    }

    /// The text this token stands for; identifiers and integers return their
    /// own payload, every other token its fixed spelling.
    pub fn literal(&self) -> (r: &str)
        ensures
            r@ == spec_literal(self@),
    {
        match self {
            Token::Ident(s) => s.as_str(),
            Token::Int(s) => s.as_str(),
            Token::Bang => "!",
            Token::Lt => "<",
            Token::Gt => ">",
            Token::Eq => "==",
            Token::Neq => "!=",
            Token::Assign => "=",
            Token::Comma => ",",
            Token::Semicolon => ";",
            Token::Lparen => "(",
            Token::Rparen => ")",
            Token::Lbrace => "{",
            Token::Rbrace => "}",
            Token::Op(o) => match o {
                Operation::Plus => "+",
                Operation::Minus => "-",
                Operation::Asterisk => "*",
                Operation::Slash => "/",
            },
            Token::Kw(k) => match k {
                Keyword::Function => "fn",
                Keyword::Return => "return",
                Keyword::Let => "let",
                Keyword::If => "if",
                Keyword::Else => "else",
                Keyword::True => "true",
                Keyword::False => "false",
            },
            Token::Eof => "EOF",
        }
    }
}

} // verus!
