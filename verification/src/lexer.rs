//! The lexer: scans source text into tokens, one call per token, with one
//! character of lookahead. After the input is exhausted it returns the
//! end-of-input token forever.
//!
//! The model is [`next_token_spec`]: a function from the input characters and
//! a scan position to the next token and the position after it. [`tok_at`]
//! iterates it to give the whole token stream as a function of the input.

use vstd::prelude::*;
use vstd::string::StrSliceExecFns;
use crate::token;
use crate::token::{Token, TokenKind, TokenType, TokenV};

verus! {

/// A letter for the purposes of identifiers: ASCII alphabetic or underscore.
pub open spec fn is_letter(c: char) -> bool {
    (97 <= c as u32 && c as u32 <= 122) || (65 <= c as u32 && c as u32 <= 90) || c as u32 == 95
}

/// An ASCII decimal digit.
pub open spec fn is_digit(c: char) -> bool {
    48 <= c as u32 && c as u32 <= 57
}

/// The whitespace characters skipped between tokens.
pub open spec fn is_whitespace(c: char) -> bool {
    c == ' ' || c == '\t' || c == '\n' || c == '\r'
}

/// The first position at or after `pos` holding a non-whitespace character,
/// or the end of the input.
pub open spec fn skip_ws(s: Seq<char>, pos: int) -> int
    decreases s.len() - pos,
{
    if 0 <= pos < s.len() && is_whitespace(s[pos]) {
        skip_ws(s, pos + 1)
    } else {
        pos
    }
}

/// The end of the maximal run of letters starting at `i`.
pub open spec fn letters_end(s: Seq<char>, i: int) -> int
    decreases s.len() - i,
{
    if 0 <= i < s.len() && is_letter(s[i]) {
        letters_end(s, i + 1)
    } else {
        i
    }
}

/// The end of the maximal run of digits starting at `i`.
pub open spec fn digits_end(s: Seq<char>, i: int) -> int
    decreases s.len() - i,
{
    if 0 <= i < s.len() && is_digit(s[i]) {
        digits_end(s, i + 1)
    } else {
        i
    }
}

pub open spec fn tokv(t: TokenType, lit: Seq<char>) -> TokenV {
    TokenV { Type: t, Literal: lit }
}

/// The next token scanned from `s` at position `pos`, and the position after
/// it. Whitespace is skipped first; at or past the end of the input the
/// result is the end-of-input token and the position stays at the end.
#[verifier::opaque]
pub open spec fn next_token_spec(s: Seq<char>, pos: int) -> (TokenV, int) {
    let i = skip_ws(s, pos);
    if !(0 <= i && i < s.len()) {
        (tokv(token::EOF, Seq::empty()), s.len() as int)
    } else {
        let c = s[i];
        if c == '=' {
            if i + 1 < s.len() && s[i + 1] == '=' {
                (tokv(token::EQ, "=="@), i + 2)
            } else {
                (tokv(token::ASSIGN, "="@), i + 1)
            }
        } else if c == '!' {
            if i + 1 < s.len() && s[i + 1] == '=' {
                (tokv(token::NOT_EQ, "!="@), i + 2)
            } else {
                (tokv(token::BANG, "!"@), i + 1)
            }
        } else if c == ';' {
            (tokv(token::SEMICOLON, ";"@), i + 1)
        } else if c == '(' {
            (tokv(token::LPAREN, "("@), i + 1)
        } else if c == ')' {
            (tokv(token::RPAREN, ")"@), i + 1)
        } else if c == ',' {
            (tokv(token::COMMA, ","@), i + 1)
        } else if c == '+' {
            (tokv(token::PLUS, "+"@), i + 1)
        } else if c == '{' {
            (tokv(token::LBRACE, "{"@), i + 1)
        } else if c == '}' {
            (tokv(token::RBRACE, "}"@), i + 1)
        } else if c == '-' {
            (tokv(token::MINUS, "-"@), i + 1)
        } else if c == '/' {
            (tokv(token::SLASH, "/"@), i + 1)
        } else if c == '*' {
            (tokv(token::ASTERISK, "*"@), i + 1)
        } else if c == '<' {
            (tokv(token::LT, "<"@), i + 1)
        } else if c == '>' {
            (tokv(token::GT, ">"@), i + 1)
        } else if is_letter(c) {
            let j = letters_end(s, i);
            (tokv(token::spec_lookup_ident(s.subrange(i, j)), s.subrange(i, j)), j)
        } else if is_digit(c) {
            let j = digits_end(s, i);
            (tokv(token::INT, s.subrange(i, j)), j)
        } else {
            (tokv(token::ILLEGAL, seq![c]), i + 1)
        }
    }
}

/// The scan position after the first `n` tokens have been produced.
pub open spec fn scan_pos_after(s: Seq<char>, n: nat) -> int
    decreases n,
{
    if n == 0 {
        0
    } else {
        next_token_spec(s, scan_pos_after(s, (n - 1) as nat)).1
    }
}

/// The `n`th token (counting from zero) of the input `s`.
pub open spec fn tok_at(s: Seq<char>, n: nat) -> TokenV {
    next_token_spec(s, scan_pos_after(s, n)).0
}

/// The lexer: the input text, the scan position, and the one character of
/// lookahead read from it.
pub struct Lexer {
    input: String,
    position: usize,
    ch: Option<char>,
}

impl Lexer {
    /// The characters of the input being scanned.
    pub closed spec fn src(self) -> Seq<char> {
        self.input@
    }

    /// The current scan position, in characters.
    pub closed spec fn pos(self) -> int {
        self.position as int
    }

    /// The lexer's single invariant: the lookahead character is the one at
    /// the scan position, or absent at the end of the input.
    pub closed spec fn wf(self) -> bool {
        &&& self.input@.len() <= usize::MAX
        &&& self.position <= self.input@.len()
        &&& self.ch == (if self.position < self.input@.len() {
            Some(self.input@[self.position as int])
        } else {
            None::<char>
        })
    }
}

/// Makes a lexer positioned at the start of the input.
pub fn New(input: String) -> (l: Lexer)
    ensures
        l.wf(),
        l.src() == input@,
        l.pos() == 0,
{
    let n = input.as_str().unicode_len();
    let ch = if n > 0 {
        Some(input.as_str().get_char(0))
    } else {
        None
    };
    Lexer { input, position: 0, ch }
}

impl Lexer {
    /// Advances to the next character.
    fn readChar(&mut self)
        requires
            old(self).wf(),
            old(self).pos() < old(self).src().len(),
        ensures
            final(self).wf(),
            final(self).src() == old(self).src(),
            final(self).pos() == old(self).pos() + 1,
    {
        let next = self.position + 1;
        if next >= self.input.as_str().unicode_len() {
            self.ch = None;
        } else {
            self.ch = Some(self.input.as_str().get_char(next));
        }
        self.position = next;
    }

    /// The character after the current one, if any.
    fn peekChar(&self) -> (r: Option<char>)
        requires
            self.wf(),
        ensures
            r == (if self.pos() + 1 < self.src().len() {
                Some(self.src()[self.pos() + 1])
            } else {
                None::<char>
            }),
    {
        if self.position >= self.input.as_str().unicode_len() {
            None
        } else {
            let next = self.position + 1;
            if next >= self.input.as_str().unicode_len() {
                None
            } else {
                Some(self.input.as_str().get_char(next))
            }
        }
    }

    /// Skips whitespace characters.
    fn skipWhitespace(&mut self)
        requires
            old(self).wf(),
        ensures
            final(self).wf(),
            final(self).src() == old(self).src(),
            final(self).pos() == skip_ws(old(self).src(), old(self).pos()),
    {
        loop
            invariant
                self.wf(),
                self.src() == old(self).src(),
                skip_ws(self.src(), self.pos()) == skip_ws(old(self).src(), old(self).pos()),
            decreases self.src().len() - self.pos(),
        {
            match self.ch {
                Some(c) => {
                    if c == ' ' || c == '\t' || c == '\n' || c == '\r' {
                        self.readChar();
                    } else {
                        return ;
                    }
                },
                None => {
                    return ;
                },
            }
        }
    }

    /// Reads the maximal run of letters starting at the current position.
    fn readIdentifier(&mut self) -> (r: String)
        requires
            old(self).wf(),
        ensures
            final(self).wf(),
            final(self).src() == old(self).src(),
            final(self).pos() == letters_end(old(self).src(), old(self).pos()),
            r@ == old(self).src().subrange(old(self).pos(), final(self).pos()),
    {
        let start = self.position;
        loop
            invariant
                self.wf(),
                self.src() == old(self).src(),
                start <= self.pos(),
                letters_end(self.src(), self.pos()) == letters_end(
                    old(self).src(),
                    old(self).pos(),
                ),
            ensures
                self.wf(),
                self.src() == old(self).src(),
                start <= self.pos(),
                self.pos() == letters_end(old(self).src(), old(self).pos()),
            decreases self.src().len() - self.pos(),
        {
            let advance = match self.ch {
                Some(c) => {
                    let u = c as u32;
                    (97 <= u && u <= 122) || (65 <= u && u <= 90) || u == 95
                },
                None => false,
            };
            if advance {
                self.readChar();
            } else {
                break ;
            }
        }
        let r = self.input.as_str().substring_char(start, self.position).to_owned();
        r
    }

    /// Reads the maximal run of digits starting at the current position.
    fn readNumber(&mut self) -> (r: String)
        requires
            old(self).wf(),
        ensures
            final(self).wf(),
            final(self).src() == old(self).src(),
            final(self).pos() == digits_end(old(self).src(), old(self).pos()),
            r@ == old(self).src().subrange(old(self).pos(), final(self).pos()),
    {
        let start = self.position;
        loop
            invariant
                self.wf(),
                self.src() == old(self).src(),
                start <= self.pos(),
                digits_end(self.src(), self.pos()) == digits_end(old(self).src(), old(self).pos()),
            ensures
                self.wf(),
                self.src() == old(self).src(),
                start <= self.pos(),
                self.pos() == digits_end(old(self).src(), old(self).pos()),
            decreases self.src().len() - self.pos(),
        {
            let advance = match self.ch {
                Some(c) => {
                    let u = c as u32;
                    48 <= u && u <= 57
                },
                None => false,
            };
            if advance {
                self.readChar();
            } else {
                break ;
            }
        }
        let r = self.input.as_str().substring_char(start, self.position).to_owned();
        r
    }

    /// Scans and returns the next token, advancing past it.
    pub fn NextToken(&mut self) -> (r: Token)
        requires
            old(self).wf(),
        ensures
            final(self).wf(),
            final(self).src() == old(self).src(),
            r@ == next_token_spec(old(self).src(), old(self).pos()).0,
            final(self).pos() == next_token_spec(old(self).src(), old(self).pos()).1,
    {
        proof {
            reveal(next_token_spec);
        }
        self.skipWhitespace();

        let tok: Token;
        match self.ch {
            None => {
                return Token { Type: token::EOF, Literal: String::new() };
            },
            Some(c) => {
                if c == '=' {
                    let peek_eq = match self.peekChar() {
                        Some(p) => p == '=',
                        None => false,
                    };
                    if peek_eq {
                        self.readChar();
                        tok = Token { Type: token::EQ, Literal: newLiteral("==") };
                    } else {
                        tok = Token { Type: token::ASSIGN, Literal: newLiteral("=") };
                    }
                } else if c == '!' {
                    let peek_eq = match self.peekChar() {
                        Some(p) => p == '=',
                        None => false,
                    };
                    if peek_eq {
                        self.readChar();
                        tok = Token { Type: token::NOT_EQ, Literal: newLiteral("!=") };
                    } else {
                        tok = Token { Type: token::BANG, Literal: newLiteral("!") };
                    }
                } else if c == ';' {
                    tok = Token { Type: token::SEMICOLON, Literal: newLiteral(";") };
                } else if c == '(' {
                    tok = Token { Type: token::LPAREN, Literal: newLiteral("(") };
                } else if c == ')' {
                    tok = Token { Type: token::RPAREN, Literal: newLiteral(")") };
                } else if c == ',' {
                    tok = Token { Type: token::COMMA, Literal: newLiteral(",") };
                } else if c == '+' {
                    tok = Token { Type: token::PLUS, Literal: newLiteral("+") };
                } else if c == '{' {
                    tok = Token { Type: token::LBRACE, Literal: newLiteral("{") };
                } else if c == '}' {
                    tok = Token { Type: token::RBRACE, Literal: newLiteral("}") };
                } else if c == '-' {
                    tok = Token { Type: token::MINUS, Literal: newLiteral("-") };
                } else if c == '/' {
                    tok = Token { Type: token::SLASH, Literal: newLiteral("/") };
                } else if c == '*' {
                    tok = Token { Type: token::ASTERISK, Literal: newLiteral("*") };
                } else if c == '<' {
                    tok = Token { Type: token::LT, Literal: newLiteral("<") };
                } else if c == '>' {
                    tok = Token { Type: token::GT, Literal: newLiteral(">") };
                } else {
                    let u = c as u32;
                    if (97 <= u && u <= 122) || (65 <= u && u <= 90) || u == 95 {
                        let literal = self.readIdentifier();
                        let t = token::LookupIdent(&literal);
                        return Token { Type: t, Literal: literal };
                    } else if 48 <= u && u <= 57 {
                        let literal = self.readNumber();
                        return Token { Type: token::INT, Literal: literal };
                    } else {
                        let i = self.position;
                        let lit = self.input.as_str().substring_char(i, i + 1).to_owned();
                        proof {
                            assert(lit@ =~= seq![self.src()[self.pos()]]);
                        }
                        tok = Token { Type: token::ILLEGAL, Literal: lit };
                    }
                }
            },
        }

        self.readChar();
        tok
    }
}

/// Makes the literal text of a fixed token.
fn newLiteral(t: &str) -> (r: String)
    ensures
        r@ == t@,
{
    <String as vstd::string::StringExecFns>::from_str(t)
}

/// The characters of an optional literal text; absent text is empty.
pub open spec fn opt_literal(o: Option<String>) -> Seq<char> {
    match o {
        Some(s) => s@,
        None => Seq::empty(),
    }
}

/// Makes a token of the given kind from the given literal text.
pub fn newToken(tokenType: TokenType, ch: &Option<String>) -> (r: Token)
    ensures
        r@ == tokv(tokenType, opt_literal(*ch)),
{
    match ch {
        Some(s) => Token { Type: tokenType, Literal: s.clone() },
        None => Token { Type: tokenType, Literal: String::new() },
    }
}


/// Skipping whitespace stays within the input.
pub proof fn lemma_skip_ws_bounds(s: Seq<char>, p: int)
    requires
        0 <= p <= s.len(),
    ensures
        p <= skip_ws(s, p) <= s.len(),
    decreases s.len() - p,
{
    if 0 <= p < s.len() && is_whitespace(s[p]) {
        lemma_skip_ws_bounds(s, p + 1);
    }
}

/// A letter run ends within the input.
pub proof fn lemma_letters_end_bounds(s: Seq<char>, p: int)
    requires
        0 <= p <= s.len(),
    ensures
        p <= letters_end(s, p) <= s.len(),
    decreases s.len() - p,
{
    if 0 <= p < s.len() && is_letter(s[p]) {
        lemma_letters_end_bounds(s, p + 1);
    }
}

/// A digit run ends within the input.
pub proof fn lemma_digits_end_bounds(s: Seq<char>, p: int)
    requires
        0 <= p <= s.len(),
    ensures
        p <= digits_end(s, p) <= s.len(),
    decreases s.len() - p,
{
    if 0 <= p < s.len() && is_digit(s[p]) {
        lemma_digits_end_bounds(s, p + 1);
    }
}

/// One scanning step stays within the input, consumes at least one
/// character unless it produced the end-of-input token, and ends at the end
/// of the input when it did.
pub proof fn lemma_next_token_bounds(s: Seq<char>, p: int)
    requires
        0 <= p <= s.len(),
    ensures
        ({
            let r = next_token_spec(s, p);
            &&& 0 <= r.1 <= s.len()
            &&& (r.0.Type != TokenKind::Eof ==> r.1 >= p + 1)
            &&& (r.0.Type == TokenKind::Eof ==> r.1 == s.len())
        }),
{
    reveal(next_token_spec);
    lemma_skip_ws_bounds(s, p);
    let i = skip_ws(s, p);
    if 0 <= i < s.len() {
        let c = s[i];
        if is_letter(c) {
            lemma_letters_end_bounds(s, i);
            assert(letters_end(s, i) == letters_end(s, i + 1));
            lemma_letters_end_bounds(s, i + 1);
        }
        if is_digit(c) {
            lemma_digits_end_bounds(s, i);
            assert(digits_end(s, i) == digits_end(s, i + 1));
            lemma_digits_end_bounds(s, i + 1);
        }
    }
}

/// Every scan position lies within the input.
pub proof fn lemma_scan_bounds(s: Seq<char>, n: nat)
    ensures
        0 <= scan_pos_after(s, n) <= s.len(),
    decreases n,
{
    if n > 0 {
        lemma_scan_bounds(s, (n - 1) as nat);
        lemma_next_token_bounds(s, scan_pos_after(s, (n - 1) as nat));
    }
}

/// The scanner either keeps pace with the token count or has reached the
/// end of the input.
pub proof fn lemma_scan_floor(s: Seq<char>, n: nat)
    ensures
        scan_pos_after(s, n) >= n || scan_pos_after(s, n) == s.len(),
    decreases n,
{
    if n > 0 {
        lemma_scan_floor(s, (n - 1) as nat);
        lemma_scan_bounds(s, (n - 1) as nat);
        lemma_next_token_bounds(s, scan_pos_after(s, (n - 1) as nat));
    }
}

/// From one token position past the input's length on, every token is the
/// end-of-input token.
pub proof fn lemma_tok_at_eof(s: Seq<char>, n: nat)
    requires
        n >= s.len(),
    ensures
        tok_at(s, n) == tokv(TokenKind::Eof, Seq::empty()),
{
    reveal(next_token_spec);
    lemma_scan_floor(s, n);
    lemma_scan_bounds(s, n);
    assert(scan_pos_after(s, n) == s.len());
}

} // verus!
