use crate::text::same_text;
use vstd::prelude::*;
use vstd::string::*;

verus! {

/// The tag of a token without its payload.
#[derive(PartialEq, Eq, Structural, Hash, Debug, Clone, Copy)]
pub enum TokenType {
    Illegal,
    Eof,
    Ident,
    Int,
    String,
    Assign,
    Plus,
    Minus,
    Comma,
    Semicolon,
    LParen,
    RParen,
    LBrace,
    RBrace,
    Function,
    Let,
    Lt,
    Gt,
    Bang,
    Asterisk,
    Slash,
    If,
    Else,
    Return,
    True,
    False,
    Eq,
    NotEq,
}

/// A lexical token. Identifiers, integers, strings and illegal characters
/// carry the text they were read from.
#[derive(PartialEq, Debug, Clone)]
pub enum Token {
    Illegal { literal: String },
    Eof,
    Ident { literal: String },
    Int { literal: String },
    String { literal: String },
    Assign,
    Plus,
    Minus,
    Comma,
    Semicolon,
    LParen,
    RParen,
    LBrace,
    RBrace,
    Function,
    Let,
    Lt,
    Gt,
    Bang,
    Asterisk,
    Slash,
    If,
    Else,
    Return,
    True,
    False,
    Eq,
    NotEq,
}

/// The mathematical content of a token: its tag and the text it carries
/// (empty for tokens without payload).
pub struct TokenView {
    pub kind: TokenType,
    pub literal: Seq<char>,
}

impl TokenView {
    /// A token without payload.
    pub open spec fn plain(kind: TokenType) -> TokenView {
        TokenView { kind, literal: Seq::empty() }
    }

    /// A token that carries text.
    pub open spec fn with_text(kind: TokenType, literal: Seq<char>) -> TokenView {
        TokenView { kind, literal }
    }
}

impl Token {
    /// The tag of the token, as a specification.
    pub open spec fn kind(self) -> TokenType {
        match self {
            Token::Illegal { .. } => TokenType::Illegal,
            Token::Eof => TokenType::Eof,
            Token::Ident { .. } => TokenType::Ident,
            Token::Int { .. } => TokenType::Int,
            Token::String { .. } => TokenType::String,
            Token::Assign => TokenType::Assign,
            Token::Plus => TokenType::Plus,
            Token::Minus => TokenType::Minus,
            Token::Comma => TokenType::Comma,
            Token::Semicolon => TokenType::Semicolon,
            Token::LParen => TokenType::LParen,
            Token::RParen => TokenType::RParen,
            Token::LBrace => TokenType::LBrace,
            Token::RBrace => TokenType::RBrace,
            Token::Function => TokenType::Function,
            Token::Let => TokenType::Let,
            Token::Lt => TokenType::Lt,
            Token::Gt => TokenType::Gt,
            Token::Bang => TokenType::Bang,
            Token::Asterisk => TokenType::Asterisk,
            Token::Slash => TokenType::Slash,
            Token::If => TokenType::If,
            Token::Else => TokenType::Else,
            Token::Return => TokenType::Return,
            Token::True => TokenType::True,
            Token::False => TokenType::False,
            Token::Eq => TokenType::Eq,
            Token::NotEq => TokenType::NotEq,
        }
    }

    /// The text the token carries, empty where it carries none.
    pub open spec fn text(self) -> Seq<char> {
        match self {
            Token::Illegal { literal } => literal@,
            Token::Ident { literal } => literal@,
            Token::Int { literal } => literal@,
            Token::String { literal } => literal@,
            _ => Seq::empty(),
        }
    }

    /// The derivable token type: the tag without the payload.
    pub fn token_type(&self) -> (kind: TokenType)
        ensures
            kind == self.kind(),
            kind == self@.kind,
    {
        match self {
            Token::Illegal { .. } => TokenType::Illegal,
            Token::Eof => TokenType::Eof,
            Token::Ident { .. } => TokenType::Ident,
            Token::Int { .. } => TokenType::Int,
            Token::String { .. } => TokenType::String,
            Token::Assign => TokenType::Assign,
            Token::Plus => TokenType::Plus,
            Token::Minus => TokenType::Minus,
            Token::Comma => TokenType::Comma,
            Token::Semicolon => TokenType::Semicolon,
            Token::LParen => TokenType::LParen,
            Token::RParen => TokenType::RParen,
            Token::LBrace => TokenType::LBrace,
            Token::RBrace => TokenType::RBrace,
            Token::Function => TokenType::Function,
            Token::Let => TokenType::Let,
            Token::Lt => TokenType::Lt,
            Token::Gt => TokenType::Gt,
            Token::Bang => TokenType::Bang,
            Token::Asterisk => TokenType::Asterisk,
            Token::Slash => TokenType::Slash,
            Token::If => TokenType::If,
            Token::Else => TokenType::Else,
            Token::Return => TokenType::Return,
            Token::True => TokenType::True,
            Token::False => TokenType::False,
            Token::Eq => TokenType::Eq,
            Token::NotEq => TokenType::NotEq,
        }
    }

    /// A copy of the token with the same content.
    pub fn duplicate(&self) -> (copy: Token)
        ensures
            copy@ == self@,
    {
        match self {
            Token::Illegal { literal } => Token::Illegal { literal: literal.clone() },
            Token::Eof => Token::Eof,
            Token::Ident { literal } => Token::Ident { literal: literal.clone() },
            Token::Int { literal } => Token::Int { literal: literal.clone() },
            Token::String { literal } => Token::String { literal: literal.clone() },
            Token::Assign => Token::Assign,
            Token::Plus => Token::Plus,
            Token::Minus => Token::Minus,
            Token::Comma => Token::Comma,
            Token::Semicolon => Token::Semicolon,
            Token::LParen => Token::LParen,
            Token::RParen => Token::RParen,
            Token::LBrace => Token::LBrace,
            Token::RBrace => Token::RBrace,
            Token::Function => Token::Function,
            Token::Let => Token::Let,
            Token::Lt => Token::Lt,
            Token::Gt => Token::Gt,
            Token::Bang => Token::Bang,
            Token::Asterisk => Token::Asterisk,
            Token::Slash => Token::Slash,
            Token::If => Token::If,
            Token::Else => Token::Else,
            Token::Return => Token::Return,
            Token::True => Token::True,
            Token::False => Token::False,
            Token::Eq => Token::Eq,
            Token::NotEq => Token::NotEq,
        }
    }
}

impl View for Token {
    type V = TokenView;

    open spec fn view(&self) -> TokenView {
        TokenView { kind: self.kind(), literal: self.text() }
    }
}

/// The keyword that a word spells, if it spells one.
pub open spec fn keyword(word: Seq<char>) -> Option<TokenType> {
    if word == "fn"@ {
        Some(TokenType::Function)
    } else if word == "let"@ {
        Some(TokenType::Let)
    } else if word == "if"@ {
        Some(TokenType::If)
    } else if word == "else"@ {
        Some(TokenType::Else)
    } else if word == "return"@ {
        Some(TokenType::Return)
    } else if word == "true"@ {
        Some(TokenType::True)
    } else if word == "false"@ {
        Some(TokenType::False)
    } else {
        None
    }
}

/// Looks a word up in the keyword table: the keyword's token, or `None` for
/// any other word.
pub fn token_from_word(literal: &str) -> (token: Option<Token>)
    ensures
        match keyword(literal@) {
            Some(kind) => token is Some && token->0@ == TokenView::plain(kind),
            None => token is None,
        },
{
    if same_text(literal, "fn") {
        Some(Token::Function)
    } else if same_text(literal, "let") {
        Some(Token::Let)
    } else if same_text(literal, "if") {
        Some(Token::If)
    } else if same_text(literal, "else") {
        Some(Token::Else)
    } else if same_text(literal, "return") {
        Some(Token::Return)
    } else if same_text(literal, "true") {
        Some(Token::True)
    } else if same_text(literal, "false") {
        Some(Token::False)
    } else {
        None
    }
}

impl TokenType {
    /// The name under which the token type appears in messages.
    pub open spec fn name(self) -> Seq<char> {
        match self {
            TokenType::Illegal => "Illegal"@,
            TokenType::Eof => "Eof"@,
            TokenType::Ident => "Ident"@,
            TokenType::Int => "Int"@,
            TokenType::String => "String"@,
            TokenType::Assign => "Assign"@,
            TokenType::Plus => "Plus"@,
            TokenType::Minus => "Minus"@,
            TokenType::Comma => "Comma"@,
            TokenType::Semicolon => "Semicolon"@,
            TokenType::LParen => "LParen"@,
            TokenType::RParen => "RParen"@,
            TokenType::LBrace => "LBrace"@,
            TokenType::RBrace => "RBrace"@,
            TokenType::Function => "Function"@,
            TokenType::Let => "Let"@,
            TokenType::Lt => "Lt"@,
            TokenType::Gt => "Gt"@,
            TokenType::Bang => "Bang"@,
            TokenType::Asterisk => "Asterisk"@,
            TokenType::Slash => "Slash"@,
            TokenType::If => "If"@,
            TokenType::Else => "Else"@,
            TokenType::Return => "Return"@,
            TokenType::True => "True"@,
            TokenType::False => "False"@,
            TokenType::Eq => "Eq"@,
            TokenType::NotEq => "NotEq"@,
        }
    }

    /// The name of the token type as text.
    pub fn to_string(&self) -> (text: String)
        ensures
            text@ == self.name(),
    {
        let name = match self {
            TokenType::Illegal => "Illegal",
            TokenType::Eof => "Eof",
            TokenType::Ident => "Ident",
            TokenType::Int => "Int",
            TokenType::String => "String",
            TokenType::Assign => "Assign",
            TokenType::Plus => "Plus",
            TokenType::Minus => "Minus",
            TokenType::Comma => "Comma",
            TokenType::Semicolon => "Semicolon",
            TokenType::LParen => "LParen",
            TokenType::RParen => "RParen",
            TokenType::LBrace => "LBrace",
            TokenType::RBrace => "RBrace",
            TokenType::Function => "Function",
            TokenType::Let => "Let",
            TokenType::Lt => "Lt",
            TokenType::Gt => "Gt",
            TokenType::Bang => "Bang",
            TokenType::Asterisk => "Asterisk",
            TokenType::Slash => "Slash",
            TokenType::If => "If",
            TokenType::Else => "Else",
            TokenType::Return => "Return",
            TokenType::True => "True",
            TokenType::False => "False",
            TokenType::Eq => "Eq",
            TokenType::NotEq => "NotEq",
        };
        String::from_str(name)
    }
}

} // verus!
