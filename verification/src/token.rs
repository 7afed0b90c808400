//! The token model: a fixed vocabulary of lexical categories together with
//! the literal text each token was scanned from.

use vstd::prelude::*;
use vstd::string::StringExecFns;

verus! {

/// A lexical category. The vocabulary is closed: end-of-input, illegal
/// characters, identifiers, integer literals, the fixed operator and
/// delimiter symbols, and the keywords.
#[derive(Clone, Copy, Debug, PartialEq, Eq, Structural)]
pub enum TokenKind {
    Illegal,
    Eof,
    Ident,
    Int,
    Assign,
    Plus,
    Minus,
    Bang,
    Asterisk,
    Slash,
    Comma,
    Semicolon,
    Lparen,
    Rparen,
    Lbrace,
    Rbrace,
    Less,
    Greater,
    Equal,
    NotEqual,
    Function,
    Let,
    True,
    False,
    If,
    Else,
    Return,
}

pub type TokenType = TokenKind;

pub const ILLEGAL: TokenType = TokenKind::Illegal;

pub const EOF: TokenType = TokenKind::Eof;

pub const IDENT: TokenType = TokenKind::Ident;

pub const INT: TokenType = TokenKind::Int;

pub const ASSIGN: TokenType = TokenKind::Assign;

pub const PLUS: TokenType = TokenKind::Plus;

pub const MINUS: TokenType = TokenKind::Minus;

pub const BANG: TokenType = TokenKind::Bang;

pub const ASTERISK: TokenType = TokenKind::Asterisk;

pub const SLASH: TokenType = TokenKind::Slash;

pub const COMMA: TokenType = TokenKind::Comma;

pub const SEMICOLON: TokenType = TokenKind::Semicolon;

pub const LPAREN: TokenType = TokenKind::Lparen;

pub const RPAREN: TokenType = TokenKind::Rparen;

pub const LBRACE: TokenType = TokenKind::Lbrace;

pub const RBRACE: TokenType = TokenKind::Rbrace;

pub const LT: TokenType = TokenKind::Less;

pub const GT: TokenType = TokenKind::Greater;

pub const EQ: TokenType = TokenKind::Equal;

pub const NOT_EQ: TokenType = TokenKind::NotEqual;

pub const FUNCTION: TokenType = TokenKind::Function;

pub const LET: TokenType = TokenKind::Let;

pub const TRUE: TokenType = TokenKind::True;

pub const FALSE: TokenType = TokenKind::False;

pub const IF: TokenType = TokenKind::If;

pub const ELSE: TokenType = TokenKind::Else;

pub const RETURN: TokenType = TokenKind::Return;

/// The display text of a token kind, used in parser diagnostics.
pub open spec fn spec_token_type_text(t: TokenType) -> Seq<char> {
    match t {
        TokenKind::Illegal => "ILLEGAL"@,
        TokenKind::Eof => "EOF"@,
        TokenKind::Ident => "IDENT"@,
        TokenKind::Int => "INT"@,
        TokenKind::Assign => "="@,
        TokenKind::Plus => "+"@,
        TokenKind::Minus => "-"@,
        TokenKind::Bang => "!"@,
        TokenKind::Asterisk => "*"@,
        TokenKind::Slash => "/"@,
        TokenKind::Comma => ","@,
        TokenKind::Semicolon => ";"@,
        TokenKind::Lparen => "("@,
        TokenKind::Rparen => ")"@,
        TokenKind::Lbrace => "{"@,
        TokenKind::Rbrace => "}"@,
        TokenKind::Less => "<"@,
        TokenKind::Greater => ">"@,
        TokenKind::Equal => "=="@,
        TokenKind::NotEqual => "!="@,
        TokenKind::Function => "FUNCTION"@,
        TokenKind::Let => "LET"@,
        TokenKind::True => "TRUE"@,
        TokenKind::False => "FALSE"@,
        TokenKind::If => "IF"@,
        TokenKind::Else => "ELSE"@,
        TokenKind::Return => "RETURN"@,
    }
}

/// The display text of a token kind, used when a diagnostic names a token.
pub fn token_type_text(t: TokenType) -> (r: &'static str)
    ensures
        r@ == spec_token_type_text(t),
{
    match t {
        TokenKind::Illegal => "ILLEGAL",
        TokenKind::Eof => "EOF",
        TokenKind::Ident => "IDENT",
        TokenKind::Int => "INT",
        TokenKind::Assign => "=",
        TokenKind::Plus => "+",
        TokenKind::Minus => "-",
        TokenKind::Bang => "!",
        TokenKind::Asterisk => "*",
        TokenKind::Slash => "/",
        TokenKind::Comma => ",",
        TokenKind::Semicolon => ";",
        TokenKind::Lparen => "(",
        TokenKind::Rparen => ")",
        TokenKind::Lbrace => "{",
        TokenKind::Rbrace => "}",
        TokenKind::Less => "<",
        TokenKind::Greater => ">",
        TokenKind::Equal => "==",
        TokenKind::NotEqual => "!=",
        TokenKind::Function => "FUNCTION",
        TokenKind::Let => "LET",
        TokenKind::True => "TRUE",
        TokenKind::False => "FALSE",
        TokenKind::If => "IF",
        TokenKind::Else => "ELSE",
        TokenKind::Return => "RETURN",
    }
}

/// One token: its lexical category and the text it was scanned from.
#[derive(Debug)]
pub struct Token {
    pub Type: TokenType,
    pub Literal: String,
}

/// The mathematical value of a token: its kind and the character sequence
/// of its literal text.
pub ghost struct TokenV {
    pub Type: TokenType,
    pub Literal: Seq<char>,
}

impl View for Token {
    type V = TokenV;

    open spec fn view(&self) -> TokenV {
        TokenV { Type: self.Type, Literal: self.Literal@ }
    }
}

impl Clone for Token {
    fn clone(&self) -> (res: Self)
        ensures
            res == *self,
    {
        Token { Type: self.Type, Literal: self.Literal.clone() }
    }
}

/// Two tokens are equal exactly when their views are.
pub(crate) fn token_eq(a: &Token, b: &Token) -> (r: bool)
    ensures
        r == (a@ == b@),
{
    a.Type == b.Type && a.Literal == b.Literal
}

/// The keyword table: identifier spellings that are reclassified to keyword
/// kinds; every other spelling stays an identifier.
pub open spec fn spec_lookup_ident(s: Seq<char>) -> TokenType {
    if s == "fn"@ {
        TokenKind::Function
    } else if s == "let"@ {
        TokenKind::Let
    } else if s == "true"@ {
        TokenKind::True
    } else if s == "false"@ {
        TokenKind::False
    } else if s == "if"@ {
        TokenKind::If
    } else if s == "else"@ {
        TokenKind::Else
    } else if s == "return"@ {
        TokenKind::Return
    } else {
        TokenKind::Ident
    }
}

/// True when the string has exactly the characters of the literal.
pub(crate) fn string_eq_text(s: &String, t: &str) -> (r: bool)
    ensures
        r == (s@ == t@),
{
    let other = String::from_str(t);
    *s == other
}

/// Reclassifies an identifier spelling to its keyword kind, if it has one.
pub fn LookupIdent(ident: &String) -> (r: TokenType)
    ensures
        r == spec_lookup_ident(ident@),
{
    if string_eq_text(ident, "fn") {
        FUNCTION
    } else if string_eq_text(ident, "let") {
        LET
    } else if string_eq_text(ident, "true") {
        TRUE
    } else if string_eq_text(ident, "false") {
        FALSE
    } else if string_eq_text(ident, "if") {
        IF
    } else if string_eq_text(ident, "else") {
        ELSE
    } else if string_eq_text(ident, "return") {
        RETURN
    } else {
        IDENT
    }
}

} // verus!
