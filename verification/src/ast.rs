//! The abstract syntax tree: statement and expression variants produced by
//! the parser and consumed by the evaluator, together with their ghost views
//! and the canonical text rendering.

use vstd::prelude::*;
use vstd::string::StringExecFns;
use crate::token;
use crate::token::{Token, TokenV};

verus! {

/// An identifier occurrence: the token it was scanned from and its spelling.
#[derive(Debug)]
pub struct Identifier {
    pub Token: Token,
    pub Value: String,
}

/// The mathematical value of an identifier occurrence.
pub ghost struct IdentifierV {
    pub Token: TokenV,
    pub Value: Seq<char>,
}

/// A statement of the language. `Nil` is the placeholder produced when
/// parsing a sub-construct fails.
#[derive(Debug)]
pub enum Statement {
    LetStatement { Token: Token, Name: Identifier, Value: Expression },
    ReturnStatement { Token: Token, ReturnValue: Expression },
    ExpressionStatement { Token: Token, Expression: Expression },
    BlockStatement { Token: Token, Statements: Vec<Statement> },
    Nil,
}

/// An expression of the language. `Nil` is the placeholder produced when
/// parsing a sub-construct fails.
#[derive(Debug)]
pub enum Expression {
    Nil,
    Identifier(Identifier),
    IntergerLiteral { Token: Token, Value: i64 },
    PrefixExpression { Token: Token, Operator: String, Right: Box<Expression> },
    InfixExpression { Token: Token, Left: Box<Expression>, Operator: String, Right: Box<Expression> },
    Boolean { Token: Token, Value: bool },
    IfExpression {
        Token: Token,
        Condition: Box<Expression>,
        Consequence: Box<Statement>,
        Alternative: Box<Statement>,
    },
    FunctionLiteral { Token: Token, Parameters: Vec<Identifier>, Body: Box<Statement> },
    CallExpression { Token: Token, Function: Box<Expression>, Arguments: Vec<Expression> },
}

/// The mathematical value of a statement.
pub ghost enum StmtV {
    LetStatement { Token: TokenV, Name: IdentifierV, Value: ExprV },
    ReturnStatement { Token: TokenV, ReturnValue: ExprV },
    ExpressionStatement { Token: TokenV, Expression: ExprV },
    BlockStatement { Token: TokenV, Statements: Seq<StmtV> },
    Nil,
}

/// The mathematical value of an expression.
pub ghost enum ExprV {
    Nil,
    Identifier(IdentifierV),
    IntergerLiteral { Token: TokenV, Value: i64 },
    PrefixExpression { Token: TokenV, Operator: Seq<char>, Right: Box<ExprV> },
    InfixExpression { Token: TokenV, Left: Box<ExprV>, Operator: Seq<char>, Right: Box<ExprV> },
    Boolean { Token: TokenV, Value: bool },
    IfExpression {
        Token: TokenV,
        Condition: Box<ExprV>,
        Consequence: Box<StmtV>,
        Alternative: Box<StmtV>,
    },
    FunctionLiteral { Token: TokenV, Parameters: Seq<IdentifierV>, Body: Box<StmtV> },
    CallExpression { Token: TokenV, Function: Box<ExprV>, Arguments: Seq<ExprV> },
}

pub open spec fn ident_view(i: Identifier) -> IdentifierV {
    IdentifierV { Token: i.Token@, Value: i.Value@ }
}

pub open spec fn idents_view(v: Seq<Identifier>) -> Seq<IdentifierV> {
    Seq::new(v.len(), |i: int| ident_view(v[i]))
}

pub open spec fn expr_view(e: Expression) -> ExprV
    decreases e,
{
    match e {
        Expression::Nil => ExprV::Nil,
        Expression::Identifier(id) => ExprV::Identifier(ident_view(id)),
        Expression::IntergerLiteral { Token, Value } => ExprV::IntergerLiteral {
            Token: Token@,
            Value,
        },
        Expression::PrefixExpression { Token, Operator, Right } => ExprV::PrefixExpression {
            Token: Token@,
            Operator: Operator@,
            Right: Box::new(expr_view(*Right)),
        },
        Expression::InfixExpression { Token, Left, Operator, Right } => ExprV::InfixExpression {
            Token: Token@,
            Left: Box::new(expr_view(*Left)),
            Operator: Operator@,
            Right: Box::new(expr_view(*Right)),
        },
        Expression::Boolean { Token, Value } => ExprV::Boolean { Token: Token@, Value },
        Expression::IfExpression { Token, Condition, Consequence, Alternative } => ExprV::IfExpression {
            Token: Token@,
            Condition: Box::new(expr_view(*Condition)),
            Consequence: Box::new(stmt_view(*Consequence)),
            Alternative: Box::new(stmt_view(*Alternative)),
        },
        Expression::FunctionLiteral { Token, Parameters, Body } => ExprV::FunctionLiteral {
            Token: Token@,
            Parameters: idents_view(Parameters@),
            Body: Box::new(stmt_view(*Body)),
        },
        Expression::CallExpression { Token, Function, Arguments } => ExprV::CallExpression {
            Token: Token@,
            Function: Box::new(expr_view(*Function)),
            Arguments: exprs_view(Arguments@),
        },
    }
}

pub open spec fn exprs_view(v: Seq<Expression>) -> Seq<ExprV>
    decreases v,
{
    if v.len() == 0 {
        Seq::empty()
    } else {
        exprs_view(v.drop_last()).push(expr_view(v.last()))
    }
}

pub open spec fn stmt_view(s: Statement) -> StmtV
    decreases s,
{
    match s {
        Statement::LetStatement { Token, Name, Value } => StmtV::LetStatement {
            Token: Token@,
            Name: ident_view(Name),
            Value: expr_view(Value),
        },
        Statement::ReturnStatement { Token, ReturnValue } => StmtV::ReturnStatement {
            Token: Token@,
            ReturnValue: expr_view(ReturnValue),
        },
        Statement::ExpressionStatement { Token, Expression } => StmtV::ExpressionStatement {
            Token: Token@,
            Expression: expr_view(Expression),
        },
        Statement::BlockStatement { Token, Statements } => StmtV::BlockStatement {
            Token: Token@,
            Statements: stmts_view(Statements@),
        },
        Statement::Nil => StmtV::Nil,
    }
}

pub open spec fn stmts_view(v: Seq<Statement>) -> Seq<StmtV>
    decreases v,
{
    if v.len() == 0 {
        Seq::empty()
    } else {
        stmts_view(v.drop_last()).push(stmt_view(v.last()))
    }
}

/// The view of a statement sequence is the sequence of statement views.
pub proof fn lemma_stmts_view(v: Seq<Statement>)
    ensures
        stmts_view(v).len() == v.len(),
        forall|i: int| 0 <= i < v.len() ==> stmts_view(v)[i] == stmt_view(v[i]),
    decreases v.len(),
{
    if v.len() > 0 {
        lemma_stmts_view(v.drop_last());
    }
}

/// The view of an expression sequence is the sequence of expression views.
pub proof fn lemma_exprs_view(v: Seq<Expression>)
    ensures
        exprs_view(v).len() == v.len(),
        forall|i: int| 0 <= i < v.len() ==> exprs_view(v)[i] == expr_view(v[i]),
    decreases v.len(),
{
    if v.len() > 0 {
        lemma_exprs_view(v.drop_last());
    }
}

impl View for Identifier {
    type V = IdentifierV;

    open spec fn view(&self) -> IdentifierV {
        ident_view(*self)
    }
}

impl View for Expression {
    type V = ExprV;

    open spec fn view(&self) -> ExprV {
        expr_view(*self)
    }
}

impl View for Statement {
    type V = StmtV;

    open spec fn view(&self) -> StmtV {
        stmt_view(*self)
    }
}

/// A whole program: an ordered sequence of statements.
#[derive(Debug)]
pub struct Program {
    pub Statements: Vec<Statement>,
}

impl View for Program {
    type V = Seq<StmtV>;

    open spec fn view(&self) -> Seq<StmtV> {
        stmts_view(self.Statements@)
    }
}

/// Two identifier occurrences are equal exactly when their views are.
pub(crate) fn ident_eq(a: &Identifier, b: &Identifier) -> (r: bool)
    ensures
        r == (a@ == b@),
{
    crate::token::token_eq(&a.Token, &b.Token) && crate::object::string_eq(&a.Value, &b.Value)
}

/// Two parameter lists are equal exactly when their views are.
pub(crate) fn idents_eq(a: &Vec<Identifier>, b: &Vec<Identifier>) -> (r: bool)
    ensures
        r == (idents_view(a@) == idents_view(b@)),
{
    if a.len() != b.len() {
        proof {
            assert(idents_view(a@).len() != idents_view(b@).len());
        }
        return false;
    }
    let mut i: usize = 0;
    while i < a.len()
        invariant
            a@.len() == b@.len(),
            i <= a@.len(),
            forall|j: int| 0 <= j < i ==> ident_view(a@[j]) == ident_view(b@[j]),
        decreases a@.len() - i,
    {
        if !ident_eq(&a[i], &b[i]) {
            proof {
                assert(idents_view(a@)[i as int] != idents_view(b@)[i as int]);
            }
            return false;
        }
        i = i + 1;
    }
    proof {
        assert(idents_view(a@) =~= idents_view(b@));
    }
    true
}

/// Two expressions are equal exactly when their views are.
pub(crate) fn expr_eq(a: &Expression, b: &Expression) -> (r: bool)
    ensures
        r == (expr_view(*a) == expr_view(*b)),
    decreases *a, 0nat,
{
    match (a, b) {
        (Expression::Nil, Expression::Nil) => true,
        (Expression::Identifier(x), Expression::Identifier(y)) => ident_eq(x, y),
        (
            Expression::IntergerLiteral { Token: t1, Value: v1 },
            Expression::IntergerLiteral { Token: t2, Value: v2 },
        ) => crate::token::token_eq(t1, t2) && *v1 == *v2,
        (
            Expression::PrefixExpression { Token: t1, Operator: o1, Right: r1 },
            Expression::PrefixExpression { Token: t2, Operator: o2, Right: r2 },
        ) => crate::token::token_eq(t1, t2) && crate::object::string_eq(o1, o2) && expr_eq(
            &**r1,
            &**r2,
        ),
        (
            Expression::InfixExpression { Token: t1, Left: l1, Operator: o1, Right: r1 },
            Expression::InfixExpression { Token: t2, Left: l2, Operator: o2, Right: r2 },
        ) => crate::token::token_eq(t1, t2) && crate::object::string_eq(o1, o2) && expr_eq(
            &**l1,
            &**l2,
        ) && expr_eq(&**r1, &**r2),
        (
            Expression::Boolean { Token: t1, Value: v1 },
            Expression::Boolean { Token: t2, Value: v2 },
        ) => crate::token::token_eq(t1, t2) && *v1 == *v2,
        (
            Expression::IfExpression { Token: t1, Condition: c1, Consequence: q1, Alternative: a1 },
            Expression::IfExpression { Token: t2, Condition: c2, Consequence: q2, Alternative: a2 },
        ) => crate::token::token_eq(t1, t2) && expr_eq(&**c1, &**c2) && stmt_eq(&**q1, &**q2)
            && stmt_eq(&**a1, &**a2),
        (
            Expression::FunctionLiteral { Token: t1, Parameters: p1, Body: b1 },
            Expression::FunctionLiteral { Token: t2, Parameters: p2, Body: b2 },
        ) => crate::token::token_eq(t1, t2) && idents_eq(p1, p2) && stmt_eq(&**b1, &**b2),
        (
            Expression::CallExpression { Token: t1, Function: f1, Arguments: g1 },
            Expression::CallExpression { Token: t2, Function: f2, Arguments: g2 },
        ) => crate::token::token_eq(t1, t2) && expr_eq(&**f1, &**f2) && exprs_eq(g1, g2),
        _ => false,
    }
}

/// Two statements are equal exactly when their views are.
pub(crate) fn stmt_eq(a: &Statement, b: &Statement) -> (r: bool)
    ensures
        r == (stmt_view(*a) == stmt_view(*b)),
    decreases *a, 0nat,
{
    match (a, b) {
        (
            Statement::LetStatement { Token: t1, Name: n1, Value: v1 },
            Statement::LetStatement { Token: t2, Name: n2, Value: v2 },
        ) => crate::token::token_eq(t1, t2) && ident_eq(n1, n2) && expr_eq(v1, v2),
        (
            Statement::ReturnStatement { Token: t1, ReturnValue: v1 },
            Statement::ReturnStatement { Token: t2, ReturnValue: v2 },
        ) => crate::token::token_eq(t1, t2) && expr_eq(v1, v2),
        (
            Statement::ExpressionStatement { Token: t1, Expression: e1 },
            Statement::ExpressionStatement { Token: t2, Expression: e2 },
        ) => crate::token::token_eq(t1, t2) && expr_eq(e1, e2),
        (
            Statement::BlockStatement { Token: t1, Statements: s1 },
            Statement::BlockStatement { Token: t2, Statements: s2 },
        ) => crate::token::token_eq(t1, t2) && stmts_eq(s1, s2),
        (Statement::Nil, Statement::Nil) => true,
        _ => false,
    }
}

/// Two argument lists are equal exactly when their views are.
pub(crate) fn exprs_eq(a: &Vec<Expression>, b: &Vec<Expression>) -> (r: bool)
    ensures
        r == (exprs_view(a@) == exprs_view(b@)),
    decreases *a, 1nat,
{
    proof {
        lemma_exprs_view(a@);
        lemma_exprs_view(b@);
    }
    if a.len() != b.len() {
        return false;
    }
    let mut i: usize = 0;
    while i < a.len()
        invariant
            a@.len() == b@.len(),
            i <= a@.len(),
            exprs_view(a@).len() == a@.len(),
            exprs_view(b@).len() == b@.len(),
            forall|j: int| 0 <= j < a@.len() ==> exprs_view(a@)[j] == expr_view(a@[j]),
            forall|j: int| 0 <= j < b@.len() ==> exprs_view(b@)[j] == expr_view(b@[j]),
            forall|j: int| 0 <= j < i ==> expr_view(a@[j]) == expr_view(b@[j]),
        decreases a@.len() - i,
    {
        if !expr_eq(&a[i], &b[i]) {
            proof {
                assert(exprs_view(a@)[i as int] != exprs_view(b@)[i as int]);
            }
            return false;
        }
        i = i + 1;
    }
    proof {
        assert(exprs_view(a@) =~= exprs_view(b@));
    }
    true
}

/// Two statement lists are equal exactly when their views are.
pub(crate) fn stmts_eq(a: &Vec<Statement>, b: &Vec<Statement>) -> (r: bool)
    ensures
        r == (stmts_view(a@) == stmts_view(b@)),
    decreases *a, 1nat,
{
    proof {
        lemma_stmts_view(a@);
        lemma_stmts_view(b@);
    }
    if a.len() != b.len() {
        return false;
    }
    let mut i: usize = 0;
    while i < a.len()
        invariant
            a@.len() == b@.len(),
            i <= a@.len(),
            stmts_view(a@).len() == a@.len(),
            stmts_view(b@).len() == b@.len(),
            forall|j: int| 0 <= j < a@.len() ==> stmts_view(a@)[j] == stmt_view(a@[j]),
            forall|j: int| 0 <= j < b@.len() ==> stmts_view(b@)[j] == stmt_view(b@[j]),
            forall|j: int| 0 <= j < i ==> stmt_view(a@[j]) == stmt_view(b@[j]),
        decreases a@.len() - i,
    {
        if !stmt_eq(&a[i], &b[i]) {
            proof {
                assert(stmts_view(a@)[i as int] != stmts_view(b@)[i as int]);
            }
            return false;
        }
        i = i + 1;
    }
    proof {
        assert(stmts_view(a@) =~= stmts_view(b@));
    }
    true
}

/// The canonical text of an identifier: the literal of its token.
pub open spec fn render_ident(i: IdentifierV) -> Seq<char> {
    i.Token.Literal
}

/// The canonical text of an expression. Grouping parentheses are made
/// explicit, so the rendering exhibits the binding order the parser chose.
pub open spec fn render_expr(e: ExprV) -> Seq<char>
    decreases e,
{
    match e {
        ExprV::Nil => Seq::empty(),
        ExprV::Identifier(id) => id.Value,
        ExprV::IntergerLiteral { Token, Value } => Token.Literal,
        ExprV::PrefixExpression { Token, Operator, Right } => "("@ + Operator + render_expr(
            *Right,
        ) + ")"@,
        ExprV::InfixExpression { Token, Left, Operator, Right } => "("@ + render_expr(*Left)
            + " "@ + Operator + " "@ + render_expr(*Right) + ")"@,
        ExprV::Boolean { Token, Value } => Token.Literal,
        ExprV::IfExpression { Token, Condition, Consequence, Alternative } => if *Alternative
            is Nil {
            "if"@ + render_expr(*Condition) + " "@ + render_stmt(*Consequence)
        } else {
            "if"@ + render_expr(*Condition) + " "@ + render_stmt(*Consequence) + "else "@
                + render_stmt(*Alternative)
        },
        ExprV::FunctionLiteral { Token, Parameters, Body } => Token.Literal + "("@
            + render_params(Parameters) + ") "@ + render_stmt(*Body),
        ExprV::CallExpression { Token, Function, Arguments } => render_expr(*Function) + "("@
            + render_args(Arguments) + ")"@,
    }
}

/// A comma-separated parameter list.
pub open spec fn render_params(v: Seq<IdentifierV>) -> Seq<char>
    decreases v,
{
    if v.len() == 0 {
        Seq::empty()
    } else if v.len() == 1 {
        render_ident(v[0])
    } else {
        render_params(v.drop_last()) + ", "@ + render_ident(v.last())
    }
}

/// A comma-separated argument list.
pub open spec fn render_args(v: Seq<ExprV>) -> Seq<char>
    decreases v,
{
    if v.len() == 0 {
        Seq::empty()
    } else if v.len() == 1 {
        render_expr(v[0])
    } else {
        render_args(v.drop_last()) + ", "@ + render_expr(v.last())
    }
}

/// The canonical text of a statement.
pub open spec fn render_stmt(s: StmtV) -> Seq<char>
    decreases s,
{
    match s {
        StmtV::LetStatement { Token, Name, Value } => Seq::empty(),
        StmtV::ReturnStatement { Token, ReturnValue } => Seq::empty(),
        StmtV::ExpressionStatement { Token, Expression } => render_expr(Expression),
        StmtV::BlockStatement { Token, Statements } => Token.Literal,
        StmtV::Nil => Seq::empty(),
    }
}

/// The canonical text of a program: its statements' texts in order.
pub open spec fn render_program(ss: Seq<StmtV>) -> Seq<char>
    decreases ss,
{
    if ss.len() == 0 {
        Seq::empty()
    } else {
        render_program(ss.drop_last()) + render_stmt(ss.last())
    }
}

impl Identifier {
    /// The text of this identifier.
    pub fn into_string(&self) -> (r: String)
        ensures
            r@ == render_ident(self@),
    {
        self.Token.Literal.clone()
    }
}

/// Joins the parameter texts with `", "`.
pub(crate) fn idents_join(v: &Vec<Identifier>) -> (r: String)
    ensures
        r@ == render_params(idents_view(v@)),
{
    let ghost full = idents_view(v@);
    let mut r = String::new();
    let mut i: usize = 0;
    while i < v.len()
        invariant
            i <= v.len(),
            full == idents_view(v@),
            full.len() == v@.len(),
            r@ == render_params(full.subrange(0, i as int)),
        decreases v.len() - i,
    {
        if i > 0 {
            r.append(", ");
        }
        r.append(v[i].Token.Literal.as_str());
        i = i + 1;
        proof {
            let pre = full.subrange(0, i as int);
            assert(pre.drop_last() =~= full.subrange(0, i - 1 as int));
            assert(pre.last() == ident_view(v@[i - 1]));
            if i == 1 {
                assert(r@ =~= render_params(pre));
            } else {
                assert(r@ =~= render_params(pre));
            }
        }
    }
    proof {
        assert(full.subrange(0, v@.len() as int) =~= full);
    }
    r
}

impl Statement {
    /// The canonical text of this statement.
    pub fn into_string(&self) -> (r: String)
        ensures
            r@ == render_stmt(self@),
        decreases *self, 2nat,
    {
        match self {
            Statement::LetStatement { Token, Name, Value } => String::new(),
            Statement::ReturnStatement { Token, ReturnValue } => String::new(),
            Statement::ExpressionStatement { Token, Expression } => Expression.into_string(),
            Statement::BlockStatement { Token, Statements } => Token.Literal.clone(),
            Statement::Nil => String::new(),
        }
    }
}

impl Expression {
    /// The canonical text of this expression.
    pub fn into_string(&self) -> (r: String)
        ensures
            r@ == render_expr(self@),
        decreases *self, 2nat,
    {
        match self {
            Expression::Nil => String::new(),
            Expression::Identifier(id) => id.Value.clone(),
            Expression::IntergerLiteral { Token, Value } => Token.Literal.clone(),
            Expression::PrefixExpression { Token, Operator, Right } => {
                let mut r = String::from_str("(");
                r.append(Operator.as_str());
                let rt = (&**Right).into_string();
                r.append(rt.as_str());
                r.append(")");
                r
            },
            Expression::InfixExpression { Token, Left, Operator, Right } => {
                let mut r = String::from_str("(");
                let lt = (&**Left).into_string();
                r.append(lt.as_str());
                r.append(" ");
                r.append(Operator.as_str());
                r.append(" ");
                let rt = (&**Right).into_string();
                r.append(rt.as_str());
                r.append(")");
                r
            },
            Expression::Boolean { Token, Value } => Token.Literal.clone(),
            Expression::IfExpression { Token, Condition, Consequence, Alternative } => {
                let mut r = String::from_str("if");
                let ct = (&**Condition).into_string();
                r.append(ct.as_str());
                r.append(" ");
                let qt = (&**Consequence).into_string();
                r.append(qt.as_str());
                let has_alt = !(matches!(&**Alternative, Statement::Nil));
                if has_alt {
                    r.append("else ");
                    let at = (&**Alternative).into_string();
                    r.append(at.as_str());
                }
                r
            },
            Expression::FunctionLiteral { Token, Parameters, Body } => {
                let mut r = Token.Literal.clone();
                r.append("(");
                let ps = idents_join(Parameters);
                r.append(ps.as_str());
                r.append(") ");
                let bt = (&**Body).into_string();
                r.append(bt.as_str());
                r
            },
            Expression::CallExpression { Token, Function, Arguments } => {
                let mut r = (&**Function).into_string();
                r.append("(");
                let at = exprs_join(Arguments);
                r.append(at.as_str());
                r.append(")");
                r
            },
        }
    }
}

/// Joins the argument texts with `", "`.
fn exprs_join(v: &Vec<Expression>) -> (r: String)
    ensures
        r@ == render_args(exprs_view(v@)),
    decreases *v, 3nat,
{
    let ghost full = exprs_view(v@);
    proof {
        lemma_exprs_view(v@);
    }
    let mut r = String::new();
    let mut i: usize = 0;
    while i < v.len()
        invariant
            i <= v.len(),
            full == exprs_view(v@),
            full.len() == v@.len(),
            forall|j: int| 0 <= j < v@.len() ==> full[j] == expr_view(v@[j]),
            r@ == render_args(full.subrange(0, i as int)),
        decreases v.len() - i,
    {
        if i > 0 {
            r.append(", ");
        }
        let et = v[i].into_string();
        r.append(et.as_str());
        i = i + 1;
        proof {
            let pre = full.subrange(0, i as int);
            assert(pre.drop_last() =~= full.subrange(0, i - 1 as int));
            assert(pre.last() == expr_view(v@[i - 1]));
            assert(r@ =~= render_args(pre));
        }
    }
    proof {
        assert(full.subrange(0, v@.len() as int) =~= full);
    }
    r
}

impl Program {
    /// The canonical text of the program: its statements' texts in order.
    pub fn into_string(&self) -> (r: String)
        ensures
            r@ == render_program(self@),
    {
        let ghost full = stmts_view(self.Statements@);
        proof {
            lemma_stmts_view(self.Statements@);
        }
        let mut r = String::new();
        let mut i: usize = 0;
        while i < self.Statements.len()
            invariant
                i <= self.Statements.len(),
                full == stmts_view(self.Statements@),
                full.len() == self.Statements@.len(),
                forall|j: int| 0 <= j < full.len() ==> full[j] == stmt_view(self.Statements@[j]),
                r@ == render_program(full.subrange(0, i as int)),
            decreases self.Statements.len() - i,
        {
            let st = self.Statements[i].into_string();
            r.append(st.as_str());
            i = i + 1;
            proof {
                let pre = full.subrange(0, i as int);
                assert(pre.drop_last() =~= full.subrange(0, i - 1 as int));
                assert(pre.last() == stmt_view(self.Statements@[i - 1]));
                assert(r@ =~= render_program(pre));
            }
        }
        proof {
            assert(full.subrange(0, full.len() as int) =~= full);
        }
        r
    }
}

impl Clone for Identifier {
    fn clone(&self) -> (res: Self)
        ensures
            res == *self,
    {
        Identifier { Token: self.Token.clone(), Value: self.Value.clone() }
    }
}

impl Clone for Expression {
    fn clone(&self) -> (res: Self)
        ensures
            res@ == self@,
        decreases *self, 0nat,
    {
        match self {
            Expression::Nil => Expression::Nil,
            Expression::Identifier(id) => Expression::Identifier(id.clone()),
            Expression::IntergerLiteral { Token, Value } => Expression::IntergerLiteral {
                Token: Token.clone(),
                Value: *Value,
            },
            Expression::PrefixExpression { Token, Operator, Right } => Expression::PrefixExpression {
                Token: Token.clone(),
                Operator: Operator.clone(),
                Right: Box::new((&**Right).clone()),
            },
            Expression::InfixExpression { Token, Left, Operator, Right } => Expression::InfixExpression {
                Token: Token.clone(),
                Left: Box::new((&**Left).clone()),
                Operator: Operator.clone(),
                Right: Box::new((&**Right).clone()),
            },
            Expression::Boolean { Token, Value } => Expression::Boolean {
                Token: Token.clone(),
                Value: *Value,
            },
            Expression::IfExpression { Token, Condition, Consequence, Alternative } => Expression::IfExpression {
                Token: Token.clone(),
                Condition: Box::new((&**Condition).clone()),
                Consequence: Box::new((&**Consequence).clone()),
                Alternative: Box::new((&**Alternative).clone()),
            },
            Expression::FunctionLiteral { Token, Parameters, Body } => Expression::FunctionLiteral {
                Token: Token.clone(),
                Parameters: clone_idents(Parameters),
                Body: Box::new((&**Body).clone()),
            },
            Expression::CallExpression { Token, Function, Arguments } => Expression::CallExpression {
                Token: Token.clone(),
                Function: Box::new((&**Function).clone()),
                Arguments: clone_exprs(Arguments),
            },
        }
    }
}

impl Clone for Statement {
    fn clone(&self) -> (res: Self)
        ensures
            res@ == self@,
        decreases *self, 0nat,
    {
        match self {
            Statement::LetStatement { Token, Name, Value } => Statement::LetStatement {
                Token: Token.clone(),
                Name: Name.clone(),
                Value: Value.clone(),
            },
            Statement::ReturnStatement { Token, ReturnValue } => Statement::ReturnStatement {
                Token: Token.clone(),
                ReturnValue: ReturnValue.clone(),
            },
            Statement::ExpressionStatement { Token, Expression } => Statement::ExpressionStatement {
                Token: Token.clone(),
                Expression: Expression.clone(),
            },
            Statement::BlockStatement { Token, Statements } => Statement::BlockStatement {
                Token: Token.clone(),
                Statements: clone_stmts(Statements),
            },
            Statement::Nil => Statement::Nil,
        }
    }
}

pub(crate) fn clone_exprs(v: &Vec<Expression>) -> (res: Vec<Expression>)
    ensures
        exprs_view(res@) == exprs_view(v@),
    decreases *v, 1nat,
{
    let mut res: Vec<Expression> = Vec::new();
    let mut i: usize = 0;
    while i < v.len()
        invariant
            i <= v.len(),
            res@.len() == i,
            forall|j: int| 0 <= j < i ==> expr_view(res@[j]) == expr_view(v@[j]),
        decreases v.len() - i,
    {
        res.push(v[i].clone());
        i = i + 1;
    }
    proof {
        lemma_exprs_view(res@);
        lemma_exprs_view(v@);
        assert(exprs_view(res@) =~= exprs_view(v@));
    }
    res
}

pub(crate) fn clone_stmts(v: &Vec<Statement>) -> (res: Vec<Statement>)
    ensures
        stmts_view(res@) == stmts_view(v@),
    decreases *v, 1nat,
{
    let mut res: Vec<Statement> = Vec::new();
    let mut i: usize = 0;
    while i < v.len()
        invariant
            i <= v.len(),
            res@.len() == i,
            forall|j: int| 0 <= j < i ==> stmt_view(res@[j]) == stmt_view(v@[j]),
        decreases v.len() - i,
    {
        res.push(v[i].clone());
        i = i + 1;
    }
    proof {
        lemma_stmts_view(res@);
        lemma_stmts_view(v@);
        assert(stmts_view(res@) =~= stmts_view(v@));
    }
    res
}

pub(crate) fn clone_idents(v: &Vec<Identifier>) -> (res: Vec<Identifier>)
    ensures
        res@ == v@,
{
    let mut res: Vec<Identifier> = Vec::new();
    let mut i: usize = 0;
    while i < v.len()
        invariant
            i <= v.len(),
            res@ == v@.subrange(0, i as int),
        decreases v.len() - i,
    {
        res.push(v[i].clone());
        i = i + 1;
        proof {
            assert(res@ =~= v@.subrange(0, i as int));
        }
    }
    proof {
        assert(res@ =~= v@);
    }
    res
}

} // verus!
