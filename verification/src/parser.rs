//! The parser: builds a syntax tree from the token stream by recursive
//! descent with operator-precedence climbing. It never fails outright: a
//! malformed construct becomes a `Nil` placeholder and a diagnostic is
//! appended to an ordered list the caller can read back.
//!
//! The model is a functional parser over the token stream of the input
//! (see [`crate::lexer::tok_at`]): each spec function takes the index of the
//! current token and returns the construct parsed, the index of its last
//! token, and the diagnostics appended. The executable parser keeps two
//! tokens of lookahead and is proved to compute exactly this model.

use vstd::prelude::*;
use vstd::string::StrSliceExecFns;
use vstd::string::StringExecFns;
use crate::ast;
use crate::ast::{Expression, ExprV, Identifier, IdentifierV, Program, Statement, StmtV};
use crate::lexer;
use crate::lexer::{Lexer, is_digit, tok_at, tokv};
use crate::token;
use crate::token::{Token, TokenKind, TokenType, TokenV, spec_token_type_text};

verus! {

pub const LOWEST: i32 = 1;

pub const EQUALS: i32 = 2;

pub const LESSGRATER: i32 = 3;

pub const SUM: i32 = 4;

pub const PRODUCT: i32 = 5;

pub const PREFIX: i32 = 6;

pub const CALL: i32 = 7;

/// The binding precedence of a token kind in infix position. Kinds that
/// cannot continue an expression bind at the lowest floor.
pub open spec fn spec_precedence(t: TokenType) -> i32 {
    match t {
        TokenKind::Equal => EQUALS,
        TokenKind::NotEqual => EQUALS,
        TokenKind::Less => LESSGRATER,
        TokenKind::Greater => LESSGRATER,
        TokenKind::Plus => SUM,
        TokenKind::Minus => SUM,
        TokenKind::Slash => PRODUCT,
        TokenKind::Asterisk => PRODUCT,
        TokenKind::Lparen => CALL,
        _ => LOWEST,
    }
}

/// The token stream of an input as a finite list: the first token of every
/// position up to one past the input's length. Past its end the stream is
/// end-of-input forever.
pub open spec fn token_list(input: Seq<char>) -> Seq<TokenV> {
    Seq::new(input.len() + 1, |n: int| tok_at(input, n as nat))
}

/// The token at index `i` of a token list; past the end it is end-of-input.
pub open spec fn tok_in(toks: Seq<TokenV>, i: int) -> TokenV {
    if 0 <= i < toks.len() {
        toks[i]
    } else {
        tokv(token::EOF, Seq::empty())
    }
}

/// The number of token positions left before the stream is exhausted; the
/// termination measure of the parsing functions.
pub open spec fn toks_rem(toks: Seq<TokenV>, i: int) -> nat {
    if i <= toks.len() + 2 {
        (toks.len() + 2 - i) as nat
    } else {
        0
    }
}

/// Guards the progress of a sub-parse: its result index, but never at or
/// before the position parsing started from. The executable parser always
/// advances, so the guard changes nothing on its results; it makes the
/// model's termination manifest.
pub open spec fn advanced(from: int, to: int) -> int {
    if to > from {
        to
    } else {
        from + 1
    }
}

pub open spec fn msg_expected_v(want: TokenType, got: TokenType) -> Seq<char> {
    "expected next token to be "@ + spec_token_type_text(want) + ", got "@
        + spec_token_type_text(got) + ", instead"@
}

pub open spec fn msg_no_prefix_v(t: TokenType) -> Seq<char> {
    "no prefix parse function for "@ + spec_token_type_text(t) + " found"@
}

pub open spec fn msg_bad_int_v(lit: Seq<char>) -> Seq<char> {
    "could not parse "@ + lit + " as integer"@
}

/// Every character is a decimal digit.
pub open spec fn all_digits(s: Seq<char>) -> bool {
    forall|k: int| 0 <= k < s.len() ==> is_digit(s[k])
}

/// The value of a digit string, most significant digit first.
pub open spec fn digits_val(s: Seq<char>) -> int
    decreases s.len(),
{
    if s.len() == 0 {
        0
    } else {
        digits_val(s.drop_last()) * 10 + (s.last() as u32 - 48)
    }
}

/// The 64-bit signed integer denoted by a literal: its digits' value, if
/// the text is a nonempty digit string whose value fits.
pub open spec fn parse_int_v(s: Seq<char>) -> Option<i64> {
    if s.len() > 0 && all_digits(s) && digits_val(s) <= i64::MAX {
        Some(digits_val(s) as i64)
    } else {
        None
    }
}

/// A parsed expression: the tree, the index of its last token, and the
/// diagnostics appended while parsing it.
pub ghost struct PExpr {
    pub e: ExprV,
    pub i: int,
    pub errs: Seq<Seq<char>>,
}

/// A parsed statement; `None` when the construct was dropped.
pub ghost struct PStmt {
    pub s: Option<StmtV>,
    pub i: int,
    pub errs: Seq<Seq<char>>,
}

/// A parsed run of statements (a block's tail or a program's tail).
pub ghost struct PStmts {
    pub ss: Seq<StmtV>,
    pub i: int,
    pub errs: Seq<Seq<char>>,
}

/// A parsed parameter list; `None` when its closing parenthesis is missing.
pub ghost struct PIdents {
    pub ps: Option<Seq<IdentifierV>>,
    pub i: int,
    pub errs: Seq<Seq<char>>,
}

/// A parsed argument list; `None` when its closing parenthesis is missing.
pub ghost struct PArgs {
    pub args: Option<Seq<ExprV>>,
    pub i: int,
    pub errs: Seq<Seq<char>>,
}

/// An identifier node made from one token.
pub open spec fn ident_of(t: TokenV) -> IdentifierV {
    IdentifierV { Token: t, Value: t.Literal }
}

/// Parses one expression at precedence floor `prec`, starting at token `i`:
/// a prefix construct, then every infix continuation whose operator binds
/// tighter than the floor.
pub open spec fn parse_expression_v(toks: Seq<TokenV>, i: int, prec: i32) -> PExpr
    decreases toks_rem(toks, i), 6nat,
{
    let t = tok_in(toks, i);
    let head = if t.Type == token::IDENT {
        PExpr { e: ExprV::Identifier(ident_of(t)), i, errs: Seq::empty() }
    } else if t.Type == token::INT {
        match parse_int_v(t.Literal) {
            Some(v) => PExpr { e: ExprV::IntergerLiteral { Token: t, Value: v }, i, errs: Seq::empty() },
            None => PExpr { e: ExprV::Nil, i, errs: seq![msg_bad_int_v(t.Literal)] },
        }
    } else if t.Type == token::TRUE || t.Type == token::FALSE {
        PExpr {
            e: ExprV::Boolean { Token: t, Value: t.Type == token::TRUE },
            i,
            errs: Seq::empty(),
        }
    } else if t.Type == token::BANG || t.Type == token::MINUS {
        let sub = parse_expression_v(toks, i + 1, PREFIX);
        PExpr {
            e: ExprV::PrefixExpression { Token: t, Operator: t.Literal, Right: Box::new(sub.e) },
            i: advanced(i, sub.i),
            errs: sub.errs,
        }
    } else if t.Type == token::LPAREN {
        parse_group_v(toks, i)
    } else if t.Type == token::IF {
        parse_if_v(toks, i)
    } else if t.Type == token::FUNCTION {
        parse_fnlit_v(toks, i)
    } else {
        PExpr { e: ExprV::Nil, i, errs: seq![msg_no_prefix_v(t.Type)] }
    };
    let lp = parse_infix_loop_v(toks, advanced(i - 1, head.i), head.e, prec);
    PExpr { e: lp.e, i: lp.i, errs: head.errs + lp.errs }
}

/// Folds infix continuations onto `left` while the next operator binds
/// tighter than the floor: the eight binary operators build infix nodes,
/// and an opening parenthesis builds a call.
pub open spec fn parse_infix_loop_v(toks: Seq<TokenV>, i: int, left: ExprV, prec: i32) -> PExpr
    decreases toks_rem(toks, i), 3nat,
{
    let pt = tok_in(toks, i + 1);
    if pt.Type == token::SEMICOLON || pt.Type == token::EOF || prec >= spec_precedence(pt.Type) {
        PExpr { e: left, i, errs: Seq::empty() }
    } else if pt.Type == token::LPAREN {
        let ca = parse_call_args_v(toks, i + 1);
        match ca.args {
            Some(args) => {
                let node = ExprV::CallExpression {
                    Token: pt,
                    Function: Box::new(left),
                    Arguments: args,
                };
                let rest = parse_infix_loop_v(toks, advanced(i, ca.i), node, prec);
                PExpr { e: rest.e, i: rest.i, errs: ca.errs + rest.errs }
            },
            None => PExpr { e: ExprV::Nil, i: advanced(i, ca.i), errs: ca.errs },
        }
    } else {
        let op_prec = spec_precedence(pt.Type);
        let sub = parse_expression_v(toks, i + 2, op_prec);
        let node = ExprV::InfixExpression {
            Token: pt,
            Left: Box::new(left),
            Operator: pt.Literal,
            Right: Box::new(sub.e),
        };
        let rest = parse_infix_loop_v(toks, advanced(i + 1, sub.i), node, prec);
        PExpr { e: rest.e, i: rest.i, errs: sub.errs + rest.errs }
    }
}

/// Parses a parenthesised group: the inner expression re-enters the climb at
/// the lowest floor and the closing parenthesis must follow.
pub open spec fn parse_group_v(toks: Seq<TokenV>, i: int) -> PExpr
    decreases toks_rem(toks, i), 5nat,
{
    if !(0 <= i < toks.len()) {
        PExpr { e: ExprV::Nil, i, errs: Seq::empty() }
    } else {
        let sub = parse_expression_v(toks, i + 1, LOWEST);
        let j = advanced(i, sub.i);
        if tok_in(toks, j + 1).Type == token::RPAREN {
            PExpr { e: sub.e, i: j + 1, errs: sub.errs }
        } else {
            PExpr {
                e: ExprV::Nil,
                i: j,
                errs: sub.errs + seq![
                    msg_expected_v(token::RPAREN, tok_in(toks, j + 1).Type),
                ],
            }
        }
    }
}

/// Parses an `if` expression: a parenthesised condition, a braced
/// consequence, and an optional `else` with a braced alternative.
pub open spec fn parse_if_v(toks: Seq<TokenV>, i: int) -> PExpr
    decreases toks_rem(toks, i), 5nat,
{
    let t = tok_in(toks, i);
    if tok_in(toks, i + 1).Type != token::LPAREN {
        PExpr {
            e: ExprV::Nil,
            i,
            errs: seq![msg_expected_v(token::LPAREN, tok_in(toks, i + 1).Type)],
        }
    } else {
        let cond = parse_expression_v(toks, i + 2, LOWEST);
        let jc = advanced(i + 1, cond.i);
        if tok_in(toks, jc + 1).Type != token::RPAREN {
            PExpr {
                e: ExprV::Nil,
                i: jc,
                errs: cond.errs + seq![msg_expected_v(token::RPAREN, tok_in(toks, jc + 1).Type)],
            }
        } else if tok_in(toks, jc + 2).Type != token::LBRACE {
            PExpr {
                e: ExprV::Nil,
                i: jc + 1,
                errs: cond.errs + seq![msg_expected_v(token::LBRACE, tok_in(toks, jc + 2).Type)],
            }
        } else {
            let cons = parse_block_v(toks, jc + 2);
            let jb = advanced(jc + 1, cons.i);
            if tok_in(toks, jb + 1).Type == token::ELSE {
                if tok_in(toks, jb + 2).Type != token::LBRACE {
                    PExpr {
                        e: ExprV::Nil,
                        i: jb + 1,
                        errs: cond.errs + cons.errs + seq![
                            msg_expected_v(token::LBRACE, tok_in(toks, jb + 2).Type),
                        ],
                    }
                } else {
                    let alt = parse_block_v(toks, jb + 2);
                    PExpr {
                        e: ExprV::IfExpression {
                            Token: t,
                            Condition: Box::new(cond.e),
                            Consequence: Box::new(cons.s),
                            Alternative: Box::new(alt.s),
                        },
                        i: advanced(jb + 1, alt.i),
                        errs: cond.errs + cons.errs + alt.errs,
                    }
                }
            } else {
                PExpr {
                    e: ExprV::IfExpression {
                        Token: t,
                        Condition: Box::new(cond.e),
                        Consequence: Box::new(cons.s),
                        Alternative: Box::new(StmtV::Nil),
                    },
                    i: jb,
                    errs: cond.errs + cons.errs,
                }
            }
        }
    }
}

/// A parsed block statement.
pub ghost struct PBlock {
    pub s: StmtV,
    pub i: int,
    pub errs: Seq<Seq<char>>,
}

/// Parses a braced block starting at its `{` token: statements until the
/// matching `}` or the end of the input.
pub open spec fn parse_block_v(toks: Seq<TokenV>, i: int) -> PBlock
    decreases toks_rem(toks, i), 5nat,
{
    if !(0 <= i < toks.len()) {
        PBlock {
            s: StmtV::BlockStatement { Token: tok_in(toks, i), Statements: Seq::empty() },
            i,
            errs: Seq::empty(),
        }
    } else {
        let t = tok_in(toks, i);
        let body = parse_stmts_until_rbrace_v(toks, i + 1);
        PBlock {
            s: StmtV::BlockStatement { Token: t, Statements: body.ss },
            i: body.i,
            errs: body.errs,
        }
    }
}

/// Parses statements until a `}` or the end of the input; the index returned
/// is that of the stopping token.
pub open spec fn parse_stmts_until_rbrace_v(toks: Seq<TokenV>, i: int) -> PStmts
    decreases toks_rem(toks, i), 9nat,
{
    let t = tok_in(toks, i);
    if t.Type == token::RBRACE || t.Type == token::EOF {
        PStmts { ss: Seq::empty(), i, errs: Seq::empty() }
    } else {
        let st = parse_statement_v(toks, i);
        let j = advanced(i - 1, st.i);
        let first = match st.s {
            Some(s) => seq![s],
            None => Seq::<StmtV>::empty(),
        };
        if tok_in(toks, j).Type == token::EOF {
            PStmts { ss: first, i: j, errs: st.errs }
        } else {
            let rest = parse_stmts_until_rbrace_v(toks, j + 1);
            PStmts { ss: first + rest.ss, i: rest.i, errs: st.errs + rest.errs }
        }
    }
}

/// Parses statements until the end of the input: the whole program.
pub open spec fn parse_program_from_v(toks: Seq<TokenV>, i: int) -> PStmts
    decreases toks_rem(toks, i), 10nat,
{
    let t = tok_in(toks, i);
    if t.Type == token::EOF {
        PStmts { ss: Seq::empty(), i, errs: Seq::empty() }
    } else {
        let st = parse_statement_v(toks, i);
        let j = advanced(i - 1, st.i);
        let first = match st.s {
            Some(s) => seq![s],
            None => Seq::<StmtV>::empty(),
        };
        if tok_in(toks, j).Type == token::EOF {
            PStmts { ss: first, i: j, errs: st.errs }
        } else {
            let rest = parse_program_from_v(toks, j + 1);
            PStmts { ss: first + rest.ss, i: rest.i, errs: st.errs + rest.errs }
        }
    }
}

/// Dispatches one statement on its first token: `let`, `return`, or an
/// expression statement.
#[verifier::opaque]
pub open spec fn parse_statement_v(toks: Seq<TokenV>, i: int) -> PStmt
    decreases toks_rem(toks, i), 8nat,
{
    let t = tok_in(toks, i);
    if t.Type == token::LET {
        parse_let_v(toks, i)
    } else if t.Type == token::RETURN {
        parse_return_v(toks, i)
    } else {
        parse_exprstmt_v(toks, i)
    }
}

/// Parses `let <identifier> = <expression> [;]`; a missing identifier or
/// `=` drops the statement with a diagnostic.
pub open spec fn parse_let_v(toks: Seq<TokenV>, i: int) -> PStmt
    decreases toks_rem(toks, i), 7nat,
{
    let t = tok_in(toks, i);
    if tok_in(toks, i + 1).Type != token::IDENT {
        PStmt { s: None, i, errs: seq![msg_expected_v(token::IDENT, tok_in(toks, i + 1).Type)] }
    } else if tok_in(toks, i + 2).Type != token::ASSIGN {
        PStmt {
            s: None,
            i: i + 1,
            errs: seq![msg_expected_v(token::ASSIGN, tok_in(toks, i + 2).Type)],
        }
    } else {
        let value = parse_expression_v(toks, i + 3, LOWEST);
        let jv = advanced(i + 2, value.i);
        let jend = if tok_in(toks, jv + 1).Type == token::SEMICOLON {
            jv + 1
        } else {
            jv
        };
        PStmt {
            s: Some(
                StmtV::LetStatement {
                    Token: t,
                    Name: ident_of(tok_in(toks, i + 1)),
                    Value: value.e,
                },
            ),
            i: jend,
            errs: value.errs,
        }
    }
}

/// Parses `return <expression> [;]`.
pub open spec fn parse_return_v(toks: Seq<TokenV>, i: int) -> PStmt
    decreases toks_rem(toks, i), 7nat,
{
    let t = tok_in(toks, i);
    let value = parse_expression_v(toks, i + 1, LOWEST);
    let jv = advanced(i, value.i);
    let jend = if tok_in(toks, jv + 1).Type == token::SEMICOLON {
        jv + 1
    } else {
        jv
    };
    PStmt {
        s: Some(StmtV::ReturnStatement { Token: t, ReturnValue: value.e }),
        i: jend,
        errs: value.errs,
    }
}

/// Parses an expression statement: an expression and an optional trailing
/// semicolon; a `Nil` expression drops the statement.
pub open spec fn parse_exprstmt_v(toks: Seq<TokenV>, i: int) -> PStmt
    decreases toks_rem(toks, i), 7nat,
{
    let t = tok_in(toks, i);
    let e = parse_expression_v(toks, i, LOWEST);
    let je = advanced(i - 1, e.i);
    if e.e is Nil {
        PStmt { s: None, i: je, errs: e.errs }
    } else {
        let jend = if tok_in(toks, je + 1).Type == token::SEMICOLON {
            je + 1
        } else {
            je
        };
        PStmt {
            s: Some(StmtV::ExpressionStatement { Token: t, Expression: e.e }),
            i: jend,
            errs: e.errs,
        }
    }
}

/// Parses a function literal: `fn`, a parenthesised parameter list, and a
/// braced body.
pub open spec fn parse_fnlit_v(toks: Seq<TokenV>, i: int) -> PExpr
    decreases toks_rem(toks, i), 5nat,
{
    let t = tok_in(toks, i);
    if tok_in(toks, i + 1).Type != token::LPAREN {
        PExpr {
            e: ExprV::Nil,
            i,
            errs: seq![msg_expected_v(token::LPAREN, tok_in(toks, i + 1).Type)],
        }
    } else {
        let params = parse_params_v(toks, i + 1);
        let jp = advanced(i, params.i);
        match params.ps {
            None => PExpr { e: ExprV::Nil, i: jp, errs: params.errs },
            Some(ps) => {
                if tok_in(toks, jp + 1).Type != token::LBRACE {
                    PExpr {
                        e: ExprV::Nil,
                        i: jp,
                        errs: params.errs + seq![
                            msg_expected_v(token::LBRACE, tok_in(toks, jp + 1).Type),
                        ],
                    }
                } else {
                    let body = parse_block_v(toks, jp + 1);
                    PExpr {
                        e: ExprV::FunctionLiteral {
                            Token: t,
                            Parameters: ps,
                            Body: Box::new(body.s),
                        },
                        i: advanced(jp, body.i),
                        errs: params.errs + body.errs,
                    }
                }
            },
        }
    }
}

/// Parses a comma-separated parameter list starting at its `(`: each
/// parameter is made from the token in its position, and the closing
/// parenthesis must follow.
pub open spec fn parse_params_v(toks: Seq<TokenV>, i: int) -> PIdents
    decreases toks_rem(toks, i), 4nat,
{
    if tok_in(toks, i + 1).Type == token::RPAREN {
        PIdents { ps: Some(Seq::empty()), i: i + 1, errs: Seq::empty() }
    } else {
        let first = ident_of(tok_in(toks, i + 1));
        let more = parse_params_loop_v(toks, i + 1);
        let jp = more.i;
        if tok_in(toks, jp + 1).Type == token::RPAREN {
            PIdents { ps: Some(seq![first] + more.ps, ), i: jp + 1, errs: Seq::empty() }
        } else {
            PIdents {
                ps: None,
                i: jp,
                errs: seq![msg_expected_v(token::RPAREN, tok_in(toks, jp + 1).Type)],
            }
        }
    }
}

/// A parsed run of further parameters.
pub ghost struct PMoreIdents {
    pub ps: Seq<IdentifierV>,
    pub i: int,
}

/// Parses `, <parameter>` runs while a comma follows.
pub open spec fn parse_params_loop_v(toks: Seq<TokenV>, i: int) -> PMoreIdents
    decreases toks_rem(toks, i), 2nat,
{
    if tok_in(toks, i + 1).Type == token::COMMA {
        let id = ident_of(tok_in(toks, i + 2));
        let rest = parse_params_loop_v(toks, i + 2);
        PMoreIdents { ps: seq![id] + rest.ps, i: rest.i }
    } else {
        PMoreIdents { ps: Seq::empty(), i }
    }
}

/// Parses a comma-separated argument list starting at its `(`: each
/// argument re-enters the climb at the lowest floor, and the closing
/// parenthesis must follow.
pub open spec fn parse_call_args_v(toks: Seq<TokenV>, i: int) -> PArgs
    decreases toks_rem(toks, i), 4nat,
{
    if !(0 <= i < toks.len()) {
        PArgs { args: None, i, errs: Seq::empty() }
    } else if tok_in(toks, i + 1).Type == token::RPAREN {
        PArgs { args: Some(Seq::empty()), i: i + 1, errs: Seq::empty() }
    } else {
        let first = parse_expression_v(toks, i + 1, LOWEST);
        let j1 = advanced(i, first.i);
        let more = parse_args_loop_v(toks, j1);
        let ja = more.i;
        if tok_in(toks, ja + 1).Type == token::RPAREN {
            PArgs {
                args: Some(seq![first.e] + more.args),
                i: ja + 1,
                errs: first.errs + more.errs,
            }
        } else {
            PArgs {
                args: None,
                i: ja,
                errs: first.errs + more.errs + seq![
                    msg_expected_v(token::RPAREN, tok_in(toks, ja + 1).Type),
                ],
            }
        }
    }
}

/// A parsed run of further arguments.
pub ghost struct PMoreArgs {
    pub args: Seq<ExprV>,
    pub i: int,
    pub errs: Seq<Seq<char>>,
}

/// Parses `, <argument>` runs while a comma follows.
pub open spec fn parse_args_loop_v(toks: Seq<TokenV>, i: int) -> PMoreArgs
    decreases toks_rem(toks, i), 2nat,
{
    if tok_in(toks, i + 1).Type == token::COMMA {
        let sub = parse_expression_v(toks, i + 2, LOWEST);
        let j = advanced(i + 1, sub.i);
        let rest = parse_args_loop_v(toks, j);
        PMoreArgs { args: seq![sub.e] + rest.args, i: rest.i, errs: sub.errs + rest.errs }
    } else {
        PMoreArgs { args: Seq::empty(), i, errs: Seq::empty() }
    }
}


/// The views of a list of diagnostic strings.
pub open spec fn strs_view(v: Seq<String>) -> Seq<Seq<char>> {
    Seq::new(v.len(), |i: int| v[i]@)
}

/// The token list agrees with the token stream at every position.
pub proof fn lemma_tok_bridge(input: Seq<char>, i: int)
    requires
        i >= 0,
    ensures
        tok_in(token_list(input), i) == tok_at(input, i as nat),
{
    if i > input.len() {
        lexer::lemma_tok_at_eof(input, i as nat);
    }
}

/// The parser: the lexer it pulls from, two tokens of lookahead, and the
/// diagnostics collected so far.
pub struct Parser {
    l: Lexer,
    curToken: Token,
    peekToken: Token,
    errors: Vec<String>,
    idx: Ghost<int>,
}

impl Parser {
    /// The characters of the source being parsed.
    pub closed spec fn src(self) -> Seq<char> {
        self.l.src()
    }

    /// The index of the current token in the token stream.
    pub closed spec fn pos(self) -> int {
        self.idx@
    }

    /// The diagnostics collected so far.
    pub closed spec fn errs(self) -> Seq<Seq<char>> {
        strs_view(self.errors@)
    }

    /// The parser's invariant: the two lookahead tokens are the ones at the
    /// current index, and the lexer stands ready to produce the one after.
    pub closed spec fn wf(self) -> bool {
        &&& self.l.wf()
        &&& self.idx@ >= 0
        &&& self.idx@ <= self.l.src().len() + 1
        &&& self.curToken@ == tok_at(self.l.src(), self.idx@ as nat)
        &&& self.peekToken@ == tok_at(self.l.src(), (self.idx@ + 1) as nat)
        &&& self.l.pos() == lexer::scan_pos_after(self.l.src(), (self.idx@ + 2) as nat)
    }
}

/// A parser whose current token is not end-of-input stands strictly inside
/// the input.
proof fn lemma_pos_bound(p: Parser)
    requires
        p.wf(),
        tok_at(p.src(), p.pos() as nat).Type != TokenKind::Eof,
    ensures
        p.pos() < p.src().len(),
{
    if p.pos() >= p.src().len() {
        lexer::lemma_tok_at_eof(p.src(), p.pos() as nat);
    }
}

/// A parser whose next token is not end-of-input stands strictly inside the
/// input.
proof fn lemma_peek_bound(p: Parser)
    requires
        p.wf(),
        tok_at(p.src(), (p.pos() + 1) as nat).Type != TokenKind::Eof,
    ensures
        p.pos() + 1 < p.src().len(),
{
    if p.pos() + 1 >= p.src().len() {
        lexer::lemma_tok_at_eof(p.src(), (p.pos() + 1) as nat);
    }
}

impl Lexer {
    /// Makes a parser over this lexer, pulling the first two tokens.
    pub fn New(self) -> (p: Parser)
        requires
            self.wf(),
            self.pos() == 0,
        ensures
            p.wf(),
            p.src() == self.src(),
            p.pos() == 0,
            p.errs() == Seq::<Seq<char>>::empty(),
    {
        let ghost input = self.src();
        let mut l = self;
        let curToken = l.NextToken();
        let peekToken = l.NextToken();
        let p = Parser { l, curToken, peekToken, errors: Vec::new(), idx: Ghost(0) };
        proof {
            assert(lexer::scan_pos_after(input, 0) == 0);
            assert(lexer::scan_pos_after(input, 1) == next_token_spec_snd(input, 0));
            assert(lexer::scan_pos_after(input, 2) == next_token_spec_snd(
                input,
                lexer::scan_pos_after(input, 1),
            ));
            assert(p.errs() =~= Seq::<Seq<char>>::empty());
        }
        p
    }
}

/// The position after the token scanned at `p`.
pub open spec fn next_token_spec_snd(s: Seq<char>, p: int) -> int {
    lexer::next_token_spec(s, p).1
}

impl Parser {
    /// Advances both lookahead tokens by one position.
    fn nextToken(&mut self)
        requires
            old(self).wf(),
            old(self).pos() <= old(self).src().len(),
        ensures
            final(self).wf(),
            final(self).src() == old(self).src(),
            final(self).pos() == old(self).pos() + 1,
            final(self).errs() == old(self).errs(),
    {
        let ghost input = self.l.src();
        let ghost n = self.idx@;
        let next = self.l.NextToken();
        self.curToken = self.peekToken.clone();
        self.peekToken = next;
        proof {
            self.idx@ = n + 1;
            assert(lexer::scan_pos_after(input, (n + 3) as nat) == next_token_spec_snd(
                input,
                lexer::scan_pos_after(input, (n + 2) as nat),
            ));
        }
    }

    /// Whether the current token has the given kind.
    fn curTokenIs(&self, t: TokenType) -> (b: bool)
        requires
            self.wf(),
        ensures
            b == (tok_at(self.src(), self.pos() as nat).Type == t),
    {
        self.curToken.Type == t
    }

    /// Whether the next token has the given kind.
    fn peekTokenIs(&self, t: TokenType) -> (b: bool)
        requires
            self.wf(),
        ensures
            b == (tok_at(self.src(), (self.pos() + 1) as nat).Type == t),
    {
        self.peekToken.Type == t
    }

    /// Records that the next token was not of the expected kind.
    fn peekError(&mut self, t: TokenType)
        requires
            old(self).wf(),
        ensures
            final(self).wf(),
            final(self).src() == old(self).src(),
            final(self).pos() == old(self).pos(),
            final(self).errs() == old(self).errs().push(
                msg_expected_v(t, tok_at(old(self).src(), (old(self).pos() + 1) as nat).Type),
            ),
    {
        let mut msg = <String as StringExecFns>::from_str("expected next token to be ");
        msg.append(token::token_type_text(t));
        msg.append(", got ");
        msg.append(token::token_type_text(self.peekToken.Type));
        msg.append(", instead");
        self.errors.push(msg);
        proof {
            assert(final(self).errs() =~= old(self).errs().push(
                msg_expected_v(t, tok_at(old(self).src(), (old(self).pos() + 1) as nat).Type),
            ));
        }
    }

    /// Advances when the next token has the expected kind; otherwise leaves
    /// the position alone and records a diagnostic.
    fn expectPeek(&mut self, t: TokenType) -> (b: bool)
        requires
            old(self).wf(),
            t != token::EOF,
        ensures
            final(self).wf(),
            final(self).src() == old(self).src(),
            b == (tok_at(old(self).src(), (old(self).pos() + 1) as nat).Type == t),
            b ==> final(self).pos() == old(self).pos() + 1 && final(self).errs() == old(
                self,
            ).errs(),
            !b ==> final(self).pos() == old(self).pos() && final(self).errs() == old(
                self,
            ).errs().push(
                msg_expected_v(t, tok_at(old(self).src(), (old(self).pos() + 1) as nat).Type),
            ),
    {
        if self.peekTokenIs(t) {
            proof {
                lemma_peek_bound(*self);
            }
            self.nextToken();
            true
        } else {
            self.peekError(t);
            false
        }
    }

    /// The diagnostics collected while parsing, in order.
    pub fn Errors(&self) -> (r: &Vec<String>)
        ensures
            strs_view(r@) == self.errs(),
    {
        &self.errors
    }

    /// The binding precedence of the next token.
    fn peekPrecedence(&self) -> (p: i32)
        requires
            self.wf(),
        ensures
            p == spec_precedence(tok_at(self.src(), (self.pos() + 1) as nat).Type),
    {
        precedence_of(self.peekToken.Type)
    }

    /// The binding precedence of the current token.
    fn curPrecedence(&self) -> (p: i32)
        requires
            self.wf(),
        ensures
            p == spec_precedence(tok_at(self.src(), self.pos() as nat).Type),
    {
        precedence_of(self.curToken.Type)
    }
}

/// The binding precedence of a token kind in infix position.
fn precedence_of(t: TokenType) -> (p: i32)
    ensures
        p == spec_precedence(t),
{
    match t {
        TokenKind::Equal => EQUALS,
        TokenKind::NotEqual => EQUALS,
        TokenKind::Less => LESSGRATER,
        TokenKind::Greater => LESSGRATER,
        TokenKind::Plus => SUM,
        TokenKind::Minus => SUM,
        TokenKind::Slash => PRODUCT,
        TokenKind::Asterisk => PRODUCT,
        TokenKind::Lparen => CALL,
        _ => LOWEST,
    }
}

/// The value of a nonempty all-digit prefix never exceeds the whole.
proof fn lemma_digits_val_mono(s: Seq<char>, k: int)
    requires
        0 <= k <= s.len(),
        all_digits(s),
    ensures
        digits_val(s.subrange(0, k)) <= digits_val(s),
        digits_val(s) >= 0,
    decreases s.len(),
{
    if s.len() == 0 {
    } else {
        assert(all_digits(s.drop_last()));
        lemma_digits_val_mono(s.drop_last(), if k <= s.len() - 1 {
            k
        } else {
            (s.len() - 1) as int
        });
        assert(is_digit(s.last()));
        if k == s.len() {
            assert(s.subrange(0, k) =~= s);
        } else {
            assert(s.subrange(0, k) =~= s.drop_last().subrange(0, k));
        }
    }
}

/// Reads a 64-bit signed integer from its decimal text.
fn parse_i64(s: &String) -> (r: Option<i64>)
    ensures
        r == parse_int_v(s@),
{
    let n = s.as_str().unicode_len();
    if n == 0 {
        return None;
    }
    let mut acc: u64 = 0;
    let mut i: usize = 0;
    while i < n
        invariant
            n == s@.len(),
            n > 0,
            i <= n,
            all_digits(s@.subrange(0, i as int)),
            acc == digits_val(s@.subrange(0, i as int)),
            acc <= i64::MAX as u64,
        decreases n - i,
    {
        let c = s.as_str().get_char(i);
        let u = c as u32;
        if !(48 <= u && u <= 57) {
            proof {
                assert(!is_digit(s@[i as int]));
            }
            return None;
        }
        let d = (u - 48) as u64;
        if acc > 922337203685477580u64 || (acc == 922337203685477580u64 && d > 7) {
            proof {
                let pre = s@.subrange(0, i + 1 as int);
                assert(pre.drop_last() =~= s@.subrange(0, i as int));
                assert(digits_val(pre) > i64::MAX);
                if all_digits(s@) {
                    lemma_digits_val_mono(s@, i + 1 as int);
                }
            }
            return None;
        }
        acc = acc * 10 + d;
        i = i + 1;
        proof {
            let pre = s@.subrange(0, i as int);
            assert(pre.drop_last() =~= s@.subrange(0, i - 1 as int));
            assert(pre.last() == s@[i - 1 as int]);
        }
    }
    proof {
        assert(s@.subrange(0, n as int) =~= s@);
    }
    Some(acc as i64)
}


/// Every position of the token list agrees with the token stream.
pub proof fn lemma_tok_all(input: Seq<char>)
    ensures
        forall|i: int|
            i >= 0 ==> #[trigger] tok_in(token_list(input), i) == tok_at(input, i as nat),
{
    assert forall|i: int| i >= 0 implies #[trigger] tok_in(token_list(input), i) == tok_at(
        input,
        i as nat,
    ) by {
        lemma_tok_bridge(input, i);
    }
}

impl Parser {
    /// Appends one diagnostic.
    fn pushError(&mut self, msg: String)
        requires
            old(self).wf(),
        ensures
            final(self).wf(),
            final(self).src() == old(self).src(),
            final(self).pos() == old(self).pos(),
            final(self).errs() == old(self).errs().push(msg@),
    {
        self.errors.push(msg);
        proof {
            assert(final(self).errs() =~= old(self).errs().push(msg@));
        }
    }

    /// Parses an integer literal from the current token; text that does not
    /// denote a 64-bit integer yields `Nil` and a diagnostic.
    fn parseIntergerLiteral(&mut self) -> (e: Expression)
        requires
            old(self).wf(),
        ensures
            final(self).wf(),
            final(self).src() == old(self).src(),
            final(self).pos() == old(self).pos(),
            ({
                let t = tok_in(token_list(old(self).src()), old(self).pos());
                match parse_int_v(t.Literal) {
                    Some(v) => e@ == (ExprV::IntergerLiteral { Token: t, Value: v })
                        && final(self).errs() == old(self).errs(),
                    None => e@ == ExprV::Nil && final(self).errs() == old(self).errs() + seq![
                        msg_bad_int_v(t.Literal),
                    ],
                }
            }),
    {
        proof {
            lemma_tok_all(self.src());
        }
        let value = parse_i64(&self.curToken.Literal);
        match value {
            Some(v) => Expression::IntergerLiteral { Token: self.curToken.clone(), Value: v },
            None => {
                let mut msg = <String as StringExecFns>::from_str("could not parse ");
                msg.append(self.curToken.Literal.as_str());
                msg.append(" as integer");
                self.pushError(msg);
                proof {
                    let t = tok_in(token_list(old(self).src()), old(self).pos());
                    assert(final(self).errs() =~= old(self).errs() + seq![
                        msg_bad_int_v(t.Literal),
                    ]);
                }
                Expression::Nil
            },
        }
    }

    /// Parses a prefix operator and its operand, which binds at prefix
    /// precedence.
    fn parsePrefixExpression(&mut self) -> (e: Expression)
        requires
            old(self).wf(),
            tok_at(old(self).src(), old(self).pos() as nat).Type == token::BANG || tok_at(
                old(self).src(),
                old(self).pos() as nat,
            ).Type == token::MINUS,
        ensures
            final(self).wf(),
            final(self).src() == old(self).src(),
            final(self).pos() >= old(self).pos(),
            ({
                let toks = token_list(old(self).src());
                let i0 = old(self).pos();
                let t = tok_in(toks, i0);
                let sub = parse_expression_v(toks, i0 + 1, PREFIX);
                &&& e@ == (ExprV::PrefixExpression {
                    Token: t,
                    Operator: t.Literal,
                    Right: Box::new(sub.e),
                })
                &&& final(self).pos() == advanced(i0, sub.i)
                &&& final(self).errs() == old(self).errs() + sub.errs
            }),
        decreases toks_rem(token_list(self.src()), self.pos()), 5nat,
    {
        proof {
            lemma_tok_all(self.src());
        }
        let token_temp = self.curToken.clone();
        let ope_temp = self.curToken.Literal.clone();
        proof {
            lemma_pos_bound(*self);
        }
        self.nextToken();
        let right = self.parseExpression(PREFIX);
        Expression::PrefixExpression {
            Token: token_temp,
            Operator: ope_temp,
            Right: Box::new(right),
        }
    }

    /// Parses a parenthesised group.
    fn parseGroupedExpression(&mut self) -> (e: Expression)
        requires
            old(self).wf(),
            tok_at(old(self).src(), old(self).pos() as nat).Type == token::LPAREN,
        ensures
            final(self).wf(),
            final(self).src() == old(self).src(),
            final(self).pos() >= old(self).pos(),
            ({
                let r = parse_group_v(token_list(old(self).src()), old(self).pos());
                e@ == r.e && final(self).pos() == r.i && final(self).errs() == old(self).errs()
                    + r.errs
            }),
        decreases toks_rem(token_list(self.src()), self.pos()), 5nat,
    {
        proof {
            lemma_tok_all(self.src());
            lemma_pos_bound(*self);
        }
        self.nextToken();
        let e = self.parseExpression(LOWEST);
        if !self.expectPeek(token::RPAREN) {
            proof {
                let r = parse_group_v(token_list(old(self).src()), old(self).pos());
                assert(final(self).errs() =~= old(self).errs() + r.errs);
            }
            return Expression::Nil;
        }
        e
    }

    /// Parses an `if` expression.
    #[verifier::rlimit(100)]
    #[verifier::spinoff_prover]
    fn parseIfExpression(&mut self) -> (e: Expression)
        requires
            old(self).wf(),
            tok_at(old(self).src(), old(self).pos() as nat).Type == token::IF,
        ensures
            final(self).wf(),
            final(self).src() == old(self).src(),
            final(self).pos() >= old(self).pos(),
            ({
                let r = parse_if_v(token_list(old(self).src()), old(self).pos());
                e@ == r.e && final(self).pos() == r.i && final(self).errs() == old(self).errs()
                    + r.errs
            }),
        decreases toks_rem(token_list(self.src()), self.pos()), 5nat,
    {
        proof {
            lemma_tok_all(self.src());
        }
        let ghost toks = token_list(self.src());
        let ghost i0 = self.pos();
        let ghost r = parse_if_v(toks, i0);
        let t = self.curToken.clone();
        if !self.expectPeek(token::LPAREN) {
            proof {
                assert(final(self).errs() =~= old(self).errs() + r.errs);
            }
            return Expression::Nil;
        }
        proof {
            lemma_pos_bound(*self);
        }
        self.nextToken();
        let cond = self.parseExpression(LOWEST);
        if !self.expectPeek(token::RPAREN) {
            proof {
                assert(final(self).errs() =~= old(self).errs() + r.errs);
            }
            return Expression::Nil;
        }
        if !self.expectPeek(token::LBRACE) {
            proof {
                assert(final(self).errs() =~= old(self).errs() + r.errs);
            }
            return Expression::Nil;
        }
        let ghost rc = parse_expression_v(toks, i0 + 2, LOWEST);
        let ghost jc = advanced(i0 + 1, rc.i);
        let ghost rcons = parse_block_v(toks, jc + 2);
        let ghost jb = advanced(jc + 1, rcons.i);
        let consequence = self.parseBlockStatement();
        proof {
            assert(cond@ == rc.e && consequence@ == rcons.s && self.pos() == jb);
        }
        if self.peekTokenIs(token::ELSE) {
            proof {
                lemma_peek_bound(*self);
            }
            self.nextToken();
            if !self.expectPeek(token::LBRACE) {
                proof {
                    assert(final(self).errs() =~= old(self).errs() + r.errs);
                }
                return Expression::Nil;
            }
            let ghost ralt = parse_block_v(toks, jb + 2);
            let alt = self.parseBlockStatement();
            let e = Expression::IfExpression {
                Token: t,
                Condition: Box::new(cond),
                Consequence: Box::new(consequence),
                Alternative: Box::new(alt),
            };
            proof {
                assert(alt@ == ralt.s && self.pos() == advanced(jb + 1, ralt.i));
                assert(e@ == r.e);
                assert(self.errs() =~= old(self).errs() + (rc.errs + rcons.errs + ralt.errs));
                assert(self.errs() =~= old(self).errs() + r.errs);
            }
            return e;
        }
        let e = Expression::IfExpression {
            Token: t,
            Condition: Box::new(cond),
            Consequence: Box::new(consequence),
            Alternative: Box::new(Statement::Nil),
        };
        proof {
            assert(tok_in(toks, jb + 1) == tok_at(self.src(), (jb + 1) as nat));
            assert(tok_in(toks, jb + 1).Type != token::ELSE);
            assert(ast::stmt_view(Statement::Nil) is Nil);
            assert(e@ == (ExprV::IfExpression {
                Token: tok_in(toks, i0),
                Condition: Box::new(rc.e),
                Consequence: Box::new(rcons.s),
                Alternative: Box::new(StmtV::Nil),
            }));
            assert(e@ == r.e);
            assert(self.errs() =~= old(self).errs() + (rc.errs + rcons.errs));
            assert(self.errs() =~= old(self).errs() + r.errs);
        }
        e
    }

    /// Parses a braced block starting at its `{` token.
    fn parseBlockStatement(&mut self) -> (s: Statement)
        requires
            old(self).wf(),
            tok_at(old(self).src(), old(self).pos() as nat).Type == token::LBRACE,
        ensures
            final(self).wf(),
            final(self).src() == old(self).src(),
            final(self).pos() >= old(self).pos(),
            ({
                let r = parse_block_v(token_list(old(self).src()), old(self).pos());
                s@ == r.s && final(self).pos() == r.i && final(self).errs() == old(self).errs()
                    + r.errs
            }),
        decreases toks_rem(token_list(self.src()), self.pos()), 5nat,
    {
        proof {
            lemma_tok_all(self.src());
        }
        let t = self.curToken.clone();
        proof {
            lemma_pos_bound(*self);
        }
        self.nextToken();
        let stmts = self.parseBlockRest();
        Statement::BlockStatement { Token: t, Statements: stmts }
    }

    /// Parses statements until a `}` or the end of the input.
    #[verifier::rlimit(100)]
    #[verifier::spinoff_prover]
    fn parseBlockRest(&mut self) -> (ss: Vec<Statement>)
        requires
            old(self).wf(),
        ensures
            final(self).wf(),
            final(self).src() == old(self).src(),
            final(self).pos() >= old(self).pos(),
            ({
                let r = parse_stmts_until_rbrace_v(token_list(old(self).src()), old(self).pos());
                ast::stmts_view(ss@) == r.ss && final(self).pos() == r.i && final(self).errs()
                    == old(self).errs() + r.errs
            }),
        decreases toks_rem(token_list(self.src()), self.pos()), 9nat,
    {
        proof {
            lemma_tok_all(self.src());
        }
        let ghost r = parse_stmts_until_rbrace_v(token_list(self.src()), self.pos());
        if self.curTokenIs(token::RBRACE) || self.curTokenIs(token::EOF) {
            let ss: Vec<Statement> = Vec::new();
            proof {
                assert(ast::stmts_view(ss@) =~= r.ss);
                assert(final(self).errs() =~= old(self).errs() + r.errs);
            }
            return ss;
        }
        let st = self.parseStatement();
        if self.curTokenIs(token::EOF) {
            let mut ss: Vec<Statement> = Vec::new();
            match st {
                Some(x) => {
                    ss.push(x);
                },
                None => {},
            }
            proof {
                ast::lemma_stmts_view(ss@);
                assert(ast::stmts_view(ss@) =~= r.ss);
                assert(final(self).errs() =~= old(self).errs() + r.errs);
            }
            return ss;
        }
        proof {
            lemma_pos_bound(*self);
        }
        self.nextToken();
        let mut rest = self.parseBlockRest();
        proof {
            ast::lemma_stmts_view(rest@);
        }
        match st {
            Some(x) => {
                let ghost rest_view = rest@;
                rest.insert(0, x);
                proof {
                    ast::lemma_stmts_view(rest@);
                    assert(rest@.drop_first() =~= rest_view);
                    assert(ast::stmts_view(rest@) =~= r.ss);
                    assert(final(self).errs() =~= old(self).errs() + r.errs);
                }
                rest
            },
            None => {
                proof {
                    assert(ast::stmts_view(rest@) =~= r.ss);
                    assert(final(self).errs() =~= old(self).errs() + r.errs);
                }
                rest
            },
        }
    }

    /// Parses statements until the end of the input.
    #[verifier::rlimit(100)]
    #[verifier::spinoff_prover]
    fn parseProgramRest(&mut self) -> (ss: Vec<Statement>)
        requires
            old(self).wf(),
        ensures
            final(self).wf(),
            final(self).src() == old(self).src(),
            final(self).pos() >= old(self).pos(),
            ({
                let r = parse_program_from_v(token_list(old(self).src()), old(self).pos());
                ast::stmts_view(ss@) == r.ss && final(self).pos() == r.i && final(self).errs()
                    == old(self).errs() + r.errs
            }),
        decreases toks_rem(token_list(self.src()), self.pos()), 10nat,
    {
        proof {
            lemma_tok_all(self.src());
        }
        let ghost r = parse_program_from_v(token_list(self.src()), self.pos());
        if self.curTokenIs(token::EOF) {
            let ss: Vec<Statement> = Vec::new();
            proof {
                assert(ast::stmts_view(ss@) =~= r.ss);
                assert(final(self).errs() =~= old(self).errs() + r.errs);
            }
            return ss;
        }
        let st = self.parseStatement();
        if self.curTokenIs(token::EOF) {
            let mut ss: Vec<Statement> = Vec::new();
            match st {
                Some(x) => {
                    ss.push(x);
                },
                None => {},
            }
            proof {
                ast::lemma_stmts_view(ss@);
                assert(ast::stmts_view(ss@) =~= r.ss);
                assert(final(self).errs() =~= old(self).errs() + r.errs);
            }
            return ss;
        }
        proof {
            lemma_pos_bound(*self);
        }
        self.nextToken();
        let mut rest = self.parseProgramRest();
        proof {
            ast::lemma_stmts_view(rest@);
        }
        match st {
            Some(x) => {
                let ghost rest_view = rest@;
                rest.insert(0, x);
                proof {
                    ast::lemma_stmts_view(rest@);
                    assert(rest@.drop_first() =~= rest_view);
                    assert(ast::stmts_view(rest@) =~= r.ss);
                    assert(final(self).errs() =~= old(self).errs() + r.errs);
                }
                rest
            },
            None => {
                proof {
                    assert(ast::stmts_view(rest@) =~= r.ss);
                    assert(final(self).errs() =~= old(self).errs() + r.errs);
                }
                rest
            },
        }
    }

    /// Consumes the whole token stream and builds the program; diagnostics
    /// accumulate and parsing never fails outright.
    pub fn ParseProgram(&mut self) -> (program: Program)
        requires
            old(self).wf(),
        ensures
            final(self).wf(),
            final(self).src() == old(self).src(),
            ({
                let r = parse_program_from_v(token_list(old(self).src()), old(self).pos());
                program@ == r.ss && final(self).pos() == r.i && final(self).errs() == old(
                    self,
                ).errs() + r.errs
            }),
    {
        let stmts = self.parseProgramRest();
        Program { Statements: stmts }
    }

    /// Dispatches one statement on its first token.
    fn parseStatement(&mut self) -> (s: Option<Statement>)
        requires
            old(self).wf(),
        ensures
            final(self).wf(),
            final(self).src() == old(self).src(),
            final(self).pos() >= old(self).pos(),
            ({
                let r = parse_statement_v(token_list(old(self).src()), old(self).pos());
                (match s {
                    Some(x) => r.s == Some(x@),
                    None => r.s is None,
                }) && final(self).pos() == r.i && final(self).errs() == old(self).errs() + r.errs
            }),
        decreases toks_rem(token_list(self.src()), self.pos()), 8nat,
    {
        proof {
            lemma_tok_all(self.src());
        }
        proof {
            reveal(parse_statement_v);
        }
        if self.curTokenIs(token::LET) {
            self.parseLetStatement()
        } else if self.curTokenIs(token::RETURN) {
            self.parseReturnStatement()
        } else {
            self.parseExpressionStatement()
        }
    }

    /// Parses `let <identifier> = <expression> [;]`.
    #[verifier::rlimit(30)]
    fn parseLetStatement(&mut self) -> (s: Option<Statement>)
        requires
            old(self).wf(),
        ensures
            final(self).wf(),
            final(self).src() == old(self).src(),
            final(self).pos() >= old(self).pos(),
            ({
                let r = parse_let_v(token_list(old(self).src()), old(self).pos());
                (match s {
                    Some(x) => r.s == Some(x@),
                    None => r.s is None,
                }) && final(self).pos() == r.i && final(self).errs() == old(self).errs() + r.errs
            }),
        decreases toks_rem(token_list(self.src()), self.pos()), 7nat,
    {
        proof {
            lemma_tok_all(self.src());
        }
        let ghost r = parse_let_v(token_list(self.src()), self.pos());
        let t = self.curToken.clone();
        if !self.expectPeek(token::IDENT) {
            proof {
                assert(final(self).errs() =~= old(self).errs() + r.errs);
            }
            return None;
        }
        let name = Identifier { Token: self.curToken.clone(), Value: self.curToken.Literal.clone() };
        if !self.expectPeek(token::ASSIGN) {
            proof {
                assert(final(self).errs() =~= old(self).errs() + r.errs);
            }
            return None;
        }
        proof {
            lemma_pos_bound(*self);
        }
        self.nextToken();
        let value = self.parseExpression(LOWEST);
        if self.peekTokenIs(token::SEMICOLON) {
            proof {
                lemma_peek_bound(*self);
            }
            self.nextToken();
        }
        let s = Statement::LetStatement { Token: t, Name: name, Value: value };
        proof {
            assert(self.errs() =~= old(self).errs() + r.errs);
        }
        Some(s)
    }

    /// Parses `return <expression> [;]`.
    fn parseReturnStatement(&mut self) -> (s: Option<Statement>)
        requires
            old(self).wf(),
            tok_at(old(self).src(), old(self).pos() as nat).Type == token::RETURN,
        ensures
            final(self).wf(),
            final(self).src() == old(self).src(),
            final(self).pos() >= old(self).pos(),
            ({
                let r = parse_return_v(token_list(old(self).src()), old(self).pos());
                (match s {
                    Some(x) => r.s == Some(x@),
                    None => r.s is None,
                }) && final(self).pos() == r.i && final(self).errs() == old(self).errs() + r.errs
            }),
        decreases toks_rem(token_list(self.src()), self.pos()), 7nat,
    {
        proof {
            lemma_tok_all(self.src());
        }
        let t = self.curToken.clone();
        proof {
            lemma_pos_bound(*self);
        }
        self.nextToken();
        let value = self.parseExpression(LOWEST);
        if self.peekTokenIs(token::SEMICOLON) {
            proof {
                lemma_peek_bound(*self);
            }
            self.nextToken();
        }
        Some(Statement::ReturnStatement { Token: t, ReturnValue: value })
    }

    /// Parses an expression statement; a `Nil` expression drops it.
    #[verifier::rlimit(30)]
    fn parseExpressionStatement(&mut self) -> (s: Option<Statement>)
        requires
            old(self).wf(),
        ensures
            final(self).wf(),
            final(self).src() == old(self).src(),
            final(self).pos() >= old(self).pos(),
            ({
                let r = parse_exprstmt_v(token_list(old(self).src()), old(self).pos());
                (match s {
                    Some(x) => r.s == Some(x@),
                    None => r.s is None,
                }) && final(self).pos() == r.i && final(self).errs() == old(self).errs() + r.errs
            }),
        decreases toks_rem(token_list(self.src()), self.pos()), 7nat,
    {
        proof {
            lemma_tok_all(self.src());
        }
        let t = self.curToken.clone();
        let res = self.parseExpression(LOWEST);
        if let Expression::Nil = &res {
            return None;
        }
        if self.peekTokenIs(token::SEMICOLON) {
            proof {
                lemma_peek_bound(*self);
            }
            self.nextToken();
        }
        Some(Statement::ExpressionStatement { Token: t, Expression: res })
    }

    /// Parses a function literal.
    #[verifier::rlimit(30)]
    fn parseFunctionLiteral(&mut self) -> (e: Expression)
        requires
            old(self).wf(),
            tok_at(old(self).src(), old(self).pos() as nat).Type == token::FUNCTION,
        ensures
            final(self).wf(),
            final(self).src() == old(self).src(),
            final(self).pos() >= old(self).pos(),
            ({
                let r = parse_fnlit_v(token_list(old(self).src()), old(self).pos());
                e@ == r.e && final(self).pos() == r.i && final(self).errs() == old(self).errs()
                    + r.errs
            }),
        decreases toks_rem(token_list(self.src()), self.pos()), 5nat,
    {
        proof {
            lemma_tok_all(self.src());
        }
        let ghost r = parse_fnlit_v(token_list(self.src()), self.pos());
        let t = self.curToken.clone();
        if !self.expectPeek(token::LPAREN) {
            proof {
                assert(final(self).errs() =~= old(self).errs() + r.errs);
            }
            return Expression::Nil;
        }
        let params = self.parseFunctionParameters();
        match params {
            None => {
                proof {
                    assert(final(self).errs() =~= old(self).errs() + r.errs);
                }
                Expression::Nil
            },
            Some(ps) => {
                if !self.expectPeek(token::LBRACE) {
                    proof {
                        assert(final(self).errs() =~= old(self).errs() + r.errs);
                    }
                    return Expression::Nil;
                }
                let body = self.parseBlockStatement();
                let e = Expression::FunctionLiteral {
                    Token: t,
                    Parameters: ps,
                    Body: Box::new(body),
                };
                proof {
                    assert(self.errs() =~= old(self).errs() + r.errs);
                }
                e
            },
        }
    }

    /// Parses a comma-separated parameter list starting at its `(`.
    #[verifier::rlimit(30)]
    fn parseFunctionParameters(&mut self) -> (p: Option<Vec<Identifier>>)
        requires
            old(self).wf(),
            tok_at(old(self).src(), old(self).pos() as nat).Type == token::LPAREN,
        ensures
            final(self).wf(),
            final(self).src() == old(self).src(),
            final(self).pos() >= old(self).pos(),
            ({
                let r = parse_params_v(token_list(old(self).src()), old(self).pos());
                (match p {
                    Some(v) => r.ps == Some(ast::idents_view(v@)),
                    None => r.ps is None,
                }) && final(self).pos() == r.i && final(self).errs() == old(self).errs() + r.errs
            }),
        decreases toks_rem(token_list(self.src()), self.pos()), 4nat,
    {
        proof {
            lemma_tok_all(self.src());
        }
        let ghost r = parse_params_v(token_list(self.src()), self.pos());
        if self.peekTokenIs(token::RPAREN) {
            proof {
                lemma_peek_bound(*self);
            }
            self.nextToken();
            let v: Vec<Identifier> = Vec::new();
            proof {
                assert(ast::idents_view(v@) =~= Seq::<IdentifierV>::empty());
                assert(final(self).errs() =~= old(self).errs() + r.errs);
            }
            return Some(v);
        }
        proof {
            lemma_pos_bound(*self);
        }
        self.nextToken();
        let first = Identifier { Token: self.curToken.clone(), Value: self.curToken.Literal.clone() };
        let mut rest = self.parseParamsRest();
        if !self.expectPeek(token::RPAREN) {
            proof {
                assert(final(self).errs() =~= old(self).errs() + r.errs);
            }
            return None;
        }
        let ghost rest_view = rest@;
        rest.insert(0, first);
        proof {
            assert(rest@.drop_first() =~= rest_view);
            assert(ast::idents_view(rest@) =~= seq![first@] + ast::idents_view(rest_view));
            assert(final(self).errs() =~= old(self).errs() + r.errs);
        }
        Some(rest)
    }

    /// Parses `, <parameter>` runs while a comma follows.
    fn parseParamsRest(&mut self) -> (v: Vec<Identifier>)
        requires
            old(self).wf(),
        ensures
            final(self).wf(),
            final(self).src() == old(self).src(),
            final(self).pos() >= old(self).pos(),
            final(self).errs() == old(self).errs(),
            ({
                let r = parse_params_loop_v(token_list(old(self).src()), old(self).pos());
                ast::idents_view(v@) == r.ps && final(self).pos() == r.i
            }),
        decreases toks_rem(token_list(self.src()), self.pos()), 2nat,
    {
        proof {
            lemma_tok_all(self.src());
        }
        let ghost r = parse_params_loop_v(token_list(self.src()), self.pos());
        if self.peekTokenIs(token::COMMA) {
            proof {
                lemma_peek_bound(*self);
            }
            self.nextToken();
            proof {
                lemma_pos_bound(*self);
            }
            self.nextToken();
            let id = Identifier {
                Token: self.curToken.clone(),
                Value: self.curToken.Literal.clone(),
            };
            let mut rest = self.parseParamsRest();
            let ghost rest_view = rest@;
            rest.insert(0, id);
            proof {
                assert(rest@.drop_first() =~= rest_view);
                assert(ast::idents_view(rest@) =~= seq![id@] + ast::idents_view(rest_view));
            }
            rest
        } else {
            let v: Vec<Identifier> = Vec::new();
            proof {
                assert(ast::idents_view(v@) =~= Seq::<IdentifierV>::empty());
            }
            v
        }
    }

    /// Parses a comma-separated argument list starting at its `(`.
    #[verifier::rlimit(30)]
    fn parseCallArguments(&mut self) -> (a: Option<Vec<Expression>>)
        requires
            old(self).wf(),
            tok_at(old(self).src(), old(self).pos() as nat).Type == token::LPAREN,
        ensures
            final(self).wf(),
            final(self).src() == old(self).src(),
            final(self).pos() >= old(self).pos(),
            ({
                let r = parse_call_args_v(token_list(old(self).src()), old(self).pos());
                (match a {
                    Some(v) => r.args == Some(ast::exprs_view(v@)),
                    None => r.args is None,
                }) && final(self).pos() == r.i && final(self).errs() == old(self).errs() + r.errs
            }),
        decreases toks_rem(token_list(self.src()), self.pos()), 4nat,
    {
        proof {
            lemma_tok_all(self.src());
        }
        let ghost r = parse_call_args_v(token_list(self.src()), self.pos());
        if self.peekTokenIs(token::RPAREN) {
            proof {
                lemma_peek_bound(*self);
            }
            self.nextToken();
            let v: Vec<Expression> = Vec::new();
            proof {
                assert(ast::exprs_view(v@) =~= Seq::<ExprV>::empty());
                assert(final(self).errs() =~= old(self).errs() + r.errs);
            }
            return Some(v);
        }
        proof {
            lemma_pos_bound(*self);
        }
        self.nextToken();
        let first = self.parseExpression(LOWEST);
        let mut rest = self.parseArgsRest();
        if !self.expectPeek(token::RPAREN) {
            proof {
                assert(final(self).errs() =~= old(self).errs() + r.errs);
            }
            return None;
        }
        proof {
            ast::lemma_exprs_view(rest@);
        }
        let ghost rest_view = rest@;
        rest.insert(0, first);
        proof {
            ast::lemma_exprs_view(rest@);
            assert(rest@.drop_first() =~= rest_view);
            assert(ast::exprs_view(rest@) =~= seq![first@] + ast::exprs_view(rest_view));
            assert(final(self).errs() =~= old(self).errs() + r.errs);
        }
        Some(rest)
    }

    /// Parses `, <argument>` runs while a comma follows.
    fn parseArgsRest(&mut self) -> (v: Vec<Expression>)
        requires
            old(self).wf(),
        ensures
            final(self).wf(),
            final(self).src() == old(self).src(),
            final(self).pos() >= old(self).pos(),
            ({
                let r = parse_args_loop_v(token_list(old(self).src()), old(self).pos());
                ast::exprs_view(v@) == r.args && final(self).pos() == r.i && final(self).errs()
                    == old(self).errs() + r.errs
            }),
        decreases toks_rem(token_list(self.src()), self.pos()), 2nat,
    {
        proof {
            lemma_tok_all(self.src());
        }
        let ghost r = parse_args_loop_v(token_list(self.src()), self.pos());
        if self.peekTokenIs(token::COMMA) {
            proof {
                lemma_peek_bound(*self);
            }
            self.nextToken();
            proof {
                lemma_pos_bound(*self);
            }
            self.nextToken();
            let sub = self.parseExpression(LOWEST);
            let mut rest = self.parseArgsRest();
            proof {
                ast::lemma_exprs_view(rest@);
            }
            let ghost rest_view = rest@;
            rest.insert(0, sub);
            proof {
                ast::lemma_exprs_view(rest@);
                assert(rest@.drop_first() =~= rest_view);
                assert(ast::exprs_view(rest@) =~= seq![sub@] + ast::exprs_view(rest_view));
                assert(final(self).errs() =~= old(self).errs() + r.errs);
            }
            rest
        } else {
            let v: Vec<Expression> = Vec::new();
            proof {
                assert(ast::exprs_view(v@) =~= Seq::<ExprV>::empty());
                assert(final(self).errs() =~= old(self).errs() + r.errs);
            }
            v
        }
    }

    /// Parses one infix continuation: the operator at the current token and
    /// its right operand at the operator's precedence.
    fn parseInfixExpression(&mut self, left: Expression) -> (e: Expression)
        requires
            old(self).wf(),
            tok_at(old(self).src(), old(self).pos() as nat).Type != token::EOF,
        ensures
            final(self).wf(),
            final(self).src() == old(self).src(),
            final(self).pos() >= old(self).pos(),
            ({
                let toks = token_list(old(self).src());
                let i0 = old(self).pos();
                let t = tok_in(toks, i0);
                let sub = parse_expression_v(toks, i0 + 1, spec_precedence(t.Type));
                &&& e@ == (ExprV::InfixExpression {
                    Token: t,
                    Left: Box::new(left@),
                    Operator: t.Literal,
                    Right: Box::new(sub.e),
                })
                &&& final(self).pos() == advanced(i0, sub.i)
                &&& final(self).errs() == old(self).errs() + sub.errs
            }),
        decreases toks_rem(token_list(self.src()), self.pos()), 4nat,
    {
        proof {
            lemma_tok_all(self.src());
        }
        let token_temp = self.curToken.clone();
        let ope_temp = self.curToken.Literal.clone();
        let precedence = self.curPrecedence();
        proof {
            lemma_pos_bound(*self);
        }
        self.nextToken();
        let right = self.parseExpression(precedence);
        Expression::InfixExpression {
            Token: token_temp,
            Left: Box::new(left),
            Operator: ope_temp,
            Right: Box::new(right),
        }
    }

    /// Folds infix continuations onto `left` while the next operator binds
    /// tighter than the floor.
    #[verifier::rlimit(30)]
    fn parseInfixLoop(&mut self, left: Expression, precedence: i32) -> (e: Expression)
        requires
            old(self).wf(),
        ensures
            final(self).wf(),
            final(self).src() == old(self).src(),
            final(self).pos() >= old(self).pos(),
            ({
                let r = parse_infix_loop_v(
                    token_list(old(self).src()),
                    old(self).pos(),
                    left@,
                    precedence,
                );
                e@ == r.e && final(self).pos() == r.i && final(self).errs() == old(self).errs()
                    + r.errs
            }),
        decreases toks_rem(token_list(self.src()), self.pos()), 3nat,
    {
        proof {
            lemma_tok_all(self.src());
        }
        let ghost r = parse_infix_loop_v(
            token_list(self.src()),
            self.pos(),
            left@,
            precedence,
        );
        let stop = self.peekTokenIs(token::SEMICOLON) || self.peekTokenIs(token::EOF) || {
            let p = self.peekPrecedence();
            precedence >= p
        };
        if stop {
            proof {
                assert(final(self).errs() =~= old(self).errs() + r.errs);
            }
            return left;
        }
        if self.peekTokenIs(token::LPAREN) {
            proof {
                lemma_peek_bound(*self);
            }
            self.nextToken();
            let pt = self.curToken.clone();
            let args = self.parseCallArguments();
            match args {
                None => {
                    proof {
                        assert(final(self).errs() =~= old(self).errs() + r.errs);
                    }
                    Expression::Nil
                },
                Some(a) => {
                    let node = Expression::CallExpression {
                        Token: pt,
                        Function: Box::new(left),
                        Arguments: a,
                    };
                    let e = self.parseInfixLoop(node, precedence);
                    proof {
                        assert(self.errs() =~= old(self).errs() + r.errs);
                    }
                    e
                },
            }
        } else {
            proof {
                lemma_peek_bound(*self);
            }
            self.nextToken();
            let node = self.parseInfixExpression(left);
            let e = self.parseInfixLoop(node, precedence);
            proof {
                assert(self.errs() =~= old(self).errs() + r.errs);
            }
            e
        }
    }

    /// Parses one expression at the given precedence floor.
    #[verifier::rlimit(100)]
    #[verifier::spinoff_prover]
    fn parseExpression(&mut self, precedence: i32) -> (e: Expression)
        requires
            old(self).wf(),
        ensures
            final(self).wf(),
            final(self).src() == old(self).src(),
            final(self).pos() >= old(self).pos(),
            ({
                let r = parse_expression_v(
                    token_list(old(self).src()),
                    old(self).pos(),
                    precedence,
                );
                e@ == r.e && final(self).pos() == r.i && final(self).errs() == old(self).errs()
                    + r.errs
            }),
        decreases toks_rem(token_list(self.src()), self.pos()), 6nat,
    {
        proof {
            lemma_tok_all(self.src());
        }
        let ghost r = parse_expression_v(token_list(self.src()), self.pos(), precedence);
        let head: Expression;
        match self.curToken.Type {
            TokenKind::Ident => {
                head = Expression::Identifier(
                    Identifier {
                        Token: self.curToken.clone(),
                        Value: self.curToken.Literal.clone(),
                    },
                );
            },
            TokenKind::Int => {
                head = self.parseIntergerLiteral();
            },
            TokenKind::True => {
                head = Expression::Boolean { Token: self.curToken.clone(), Value: true };
            },
            TokenKind::False => {
                head = Expression::Boolean { Token: self.curToken.clone(), Value: false };
            },
            TokenKind::Bang => {
                head = self.parsePrefixExpression();
            },
            TokenKind::Minus => {
                head = self.parsePrefixExpression();
            },
            TokenKind::Lparen => {
                head = self.parseGroupedExpression();
            },
            TokenKind::If => {
                head = self.parseIfExpression();
            },
            TokenKind::Function => {
                head = self.parseFunctionLiteral();
            },
            _ => {
                let mut msg = <String as StringExecFns>::from_str(
                    "no prefix parse function for ",
                );
                msg.append(token::token_type_text(self.curToken.Type));
                msg.append(" found");
                self.pushError(msg);
                head = Expression::Nil;
            },
        }
        let e = self.parseInfixLoop(head, precedence);
        proof {
            assert(self.errs() =~= old(self).errs() + r.errs);
        }
        e
    }
}

} // verus!
