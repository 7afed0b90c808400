//! The tree-walking evaluator: reduces a syntax tree and an environment to a
//! runtime value, threading error propagation and early-return control flow
//! as ordinary values.
//!
//! The model is a fuel-indexed big-step semantics over views: each spec
//! function takes the arena of scopes and returns an [`Outcome`] holding the
//! resulting value and the arena afterwards. Only a function call consumes
//! fuel, so the depth of nested calls is what the fuel bounds; when it runs
//! out the call yields a `"stack overflow"` error value, which propagates
//! like any other error. The executable evaluator is proved to compute
//! exactly this model at [`EVAL_FUEL`].
//!
//! Two conditions the surrounding design leaves open are fixed here and
//! stated in the model: a call whose argument count differs from the
//! function's parameter count yields a `"wrong number of arguments"` error,
//! and integer division by zero yields a `"division by zero"` error. The
//! arithmetic operators wrap around on two's-complement 64-bit overflow;
//! division truncates toward zero. A `ReturnValue` or `Error` arising inside
//! a subexpression propagates outward unchanged, so neither is ever stored
//! in a binding.

use vstd::prelude::*;
use vstd::string::StringExecFns;
use vstd::wrapping::i64_specs;
use crate::ast;
use crate::ast::{Expression, ExprV, Identifier, IdentifierV, Program, Statement, StmtV,
    exprs_view, idents_view, lemma_exprs_view, lemma_stmts_view, stmts_view};
use crate::object;
use crate::object::{
    Environment, FrameV, ObjV, Object, ObjectType, env_lookup, env_wf, lemma_env_lookup_wf,
    lemma_obj_wf_mono, lemma_objs_view, obj_wf, objs_view, spec_type_name, string_eq,
};
use crate::token::string_eq_text;

verus! {

/// The call-depth budget of one evaluation: no chain of nested calls deeper
/// than this is evaluated; past it a call yields a `"stack overflow"` error.
pub const EVAL_FUEL: u64 = 1024;

/// The result of one evaluation step: the value produced and the arena of
/// scopes afterwards.
pub ghost struct Outcome {
    pub val: ObjV,
    pub env: Seq<FrameV>,
}

/// The result of evaluating an argument list: either every argument's value
/// in order, or the first abrupt value met.
pub ghost struct ArgsOutcome {
    pub res: Result<Seq<ObjV>, ObjV>,
    pub env: Seq<FrameV>,
}

/// Truthiness: only `false` and `Null` are falsy.
pub open spec fn is_truthy_v(o: ObjV) -> bool {
    match o {
        ObjV::Null => false,
        ObjV::Boolean { Value } => Value,
        _ => true,
    }
}

pub open spec fn is_error_v(o: ObjV) -> bool {
    o is Error
}

/// A value that aborts the surrounding construct: an error, or an early
/// return on its way out to the enclosing function call.
pub open spec fn is_abrupt_v(o: ObjV) -> bool {
    o is Error || o is ReturnValue
}

/// Strips one `ReturnValue` wrapper, if present.
pub open spec fn unwrap_return_v(o: ObjV) -> ObjV {
    match o {
        ObjV::ReturnValue { Value } => *Value,
        _ => o,
    }
}

/// Whether two objects carry the same type name.
pub open spec fn same_type_v(l: ObjV, r: ObjV) -> bool {
    ||| (l is Integer && r is Integer)
    ||| (l is Boolean && r is Boolean)
    ||| (l is Null && r is Null)
    ||| (l is Function && r is Function)
    ||| (l is Error && r is Error)
    ||| (l is ReturnValue && r is ReturnValue)
}

pub open spec fn msg_unknown_prefix_v(op: Seq<char>, t: Seq<char>) -> Seq<char> {
    "unknown operator: "@ + op + t
}

pub open spec fn msg_type_mismatch_v(lt: Seq<char>, op: Seq<char>, rt: Seq<char>) -> Seq<char> {
    "type mismatch: "@ + lt + " "@ + op + " "@ + rt
}

pub open spec fn msg_unknown_infix_v(lt: Seq<char>, op: Seq<char>, rt: Seq<char>) -> Seq<char> {
    "unknown operator: "@ + lt + " "@ + op + " "@ + rt
}

pub open spec fn msg_ident_not_found_v(name: Seq<char>) -> Seq<char> {
    "identifier not found: "@ + name
}

pub open spec fn msg_not_a_function_v(t: Seq<char>) -> Seq<char> {
    "not a function: "@ + t
}

/// A prefix operator applied to an already evaluated operand. `!` negates
/// truthiness and never fails; `-` requires an integer and wraps around on
/// the most negative value.
pub open spec fn eval_prefix_v(op: Seq<char>, v: ObjV) -> ObjV {
    if op == "!"@ {
        ObjV::Boolean { Value: !is_truthy_v(v) }
    } else if op == "-"@ {
        match v {
            ObjV::Integer { Value } => ObjV::Integer { Value: i64_specs::wrapping_sub(0, Value) },
            _ => ObjV::Error { Message: msg_unknown_prefix_v(op, spec_type_name(v)) },
        }
    } else {
        ObjV::Error { Message: msg_unknown_prefix_v(op, spec_type_name(v)) }
    }
}

/// An infix operator applied to two integer operands. `+ - *` wrap around on
/// overflow; `/` truncates toward zero, yields an error on a zero divisor,
/// and wraps on the one overflowing quotient; the comparisons yield booleans.
pub open spec fn eval_int_infix_v(op: Seq<char>, a: i64, b: i64) -> ObjV {
    if op == "+"@ {
        ObjV::Integer { Value: i64_specs::wrapping_add(a, b) }
    } else if op == "-"@ {
        ObjV::Integer { Value: i64_specs::wrapping_sub(a, b) }
    } else if op == "*"@ {
        ObjV::Integer { Value: i64_specs::wrapping_mul(a, b) }
    } else if op == "/"@ {
        if b == 0 {
            ObjV::Error { Message: "division by zero"@ }
        } else {
            match a.checked_div(b) {
                Some(q) => ObjV::Integer { Value: q },
                None => ObjV::Integer { Value: i64::MIN },
            }
        }
    } else if op == "<"@ {
        ObjV::Boolean { Value: a < b }
    } else if op == ">"@ {
        ObjV::Boolean { Value: a > b }
    } else if op == "=="@ {
        ObjV::Boolean { Value: a == b }
    } else if op == "!="@ {
        ObjV::Boolean { Value: a != b }
    } else {
        ObjV::Error { Message: msg_unknown_infix_v("INTEGER"@, op, "INTEGER"@) }
    }
}

/// An infix operator applied to two evaluated operands: integer pairs go to
/// the integer rules; operands of different types are a type mismatch; equal
/// non-integer types admit only `==` and `!=`, by structural equality.
pub open spec fn eval_infix_v(op: Seq<char>, l: ObjV, r: ObjV) -> ObjV {
    if (l is Integer && r is Integer) {
        eval_int_infix_v(op, int_of(l), int_of(r))
    } else if !same_type_v(l, r) {
        ObjV::Error {
            Message: msg_type_mismatch_v(spec_type_name(l), op, spec_type_name(r)),
        }
    } else if op == "=="@ {
        ObjV::Boolean { Value: l == r }
    } else if op == "!="@ {
        ObjV::Boolean { Value: l != r }
    } else {
        ObjV::Error {
            Message: msg_unknown_infix_v(spec_type_name(l), op, spec_type_name(r)),
        }
    }
}

/// The integer carried by an integer object.
pub open spec fn int_of(o: ObjV) -> i64
    recommends
        o is Integer,
{
    match o {
        ObjV::Integer { Value } => Value,
        _ => 0,
    }
}

/// The bindings of a fresh call scope: each parameter name bound to the
/// argument in its position, later parameters superseding earlier ones of
/// the same name.
pub open spec fn bind_params_v(ps: Seq<IdentifierV>, args: Seq<ObjV>) -> Map<Seq<char>, ObjV>
    decreases ps.len(),
{
    if ps.len() == 0 {
        Map::empty()
    } else {
        bind_params_v(ps.drop_last(), args.drop_last()).insert(
            ps.last().Value,
            args[ps.len() - 1],
        )
    }
}

/// Evaluates an expression in scope `fr`.
pub open spec fn eval_expr_v(e: ExprV, fr: int, h: Seq<FrameV>, fuel: nat) -> Outcome
    decreases fuel, 1nat, e, 0nat,
{
    match e {
        ExprV::Nil => Outcome { val: ObjV::Null, env: h },
        ExprV::IntergerLiteral { Token, Value } => Outcome {
            val: ObjV::Integer { Value },
            env: h,
        },
        ExprV::Boolean { Token, Value } => Outcome { val: ObjV::Boolean { Value }, env: h },
        ExprV::Identifier(id) => Outcome {
            val: match env_lookup(h, fr, id.Value) {
                Some(v) => v,
                None => ObjV::Error { Message: msg_ident_not_found_v(id.Value) },
            },
            env: h,
        },
        ExprV::PrefixExpression { Token, Operator, Right } => {
            let out = eval_expr_v(*Right, fr, h, fuel);
            if is_abrupt_v(out.val) {
                out
            } else {
                Outcome { val: eval_prefix_v(Operator, out.val), env: out.env }
            }
        },
        ExprV::InfixExpression { Token, Left, Operator, Right } => {
            let lout = eval_expr_v(*Left, fr, h, fuel);
            if is_abrupt_v(lout.val) {
                lout
            } else {
                let rout = eval_expr_v(*Right, fr, lout.env, fuel);
                if is_abrupt_v(rout.val) {
                    rout
                } else {
                    Outcome { val: eval_infix_v(Operator, lout.val, rout.val), env: rout.env }
                }
            }
        },
        ExprV::IfExpression { Token, Condition, Consequence, Alternative } => {
            let cout = eval_expr_v(*Condition, fr, h, fuel);
            if is_abrupt_v(cout.val) {
                cout
            } else if is_truthy_v(cout.val) {
                eval_stmt_v(*Consequence, fr, cout.env, fuel)
            } else if *Alternative is Nil {
                Outcome { val: ObjV::Null, env: cout.env }
            } else {
                eval_stmt_v(*Alternative, fr, cout.env, fuel)
            }
        },
        ExprV::FunctionLiteral { Token, Parameters, Body } => Outcome {
            val: ObjV::Function { Parameters, Body, Env: fr },
            env: h,
        },
        ExprV::CallExpression { Token, Function, Arguments } => {
            let fout = eval_expr_v(*Function, fr, h, fuel);
            if is_abrupt_v(fout.val) {
                fout
            } else {
                let aout = eval_args_from_v(Arguments, 0, fr, fout.env, fuel);
                match aout.res {
                    Err(e) => Outcome { val: e, env: aout.env },
                    Ok(vs) => apply_function_v(fout.val, vs, aout.env, fuel),
                }
            }
        },
    }
}

/// Evaluates one statement in scope `fr`.
pub open spec fn eval_stmt_v(s: StmtV, fr: int, h: Seq<FrameV>, fuel: nat) -> Outcome
    decreases fuel, 1nat, s, 0nat,
{
    match s {
        StmtV::ExpressionStatement { Token, Expression } => eval_expr_v(Expression, fr, h, fuel),
        StmtV::BlockStatement { Token, Statements } => eval_block_from_v(
            Statements,
            0,
            fr,
            h,
            fuel,
        ),
        StmtV::ReturnStatement { Token, ReturnValue } => {
            let out = eval_expr_v(ReturnValue, fr, h, fuel);
            if is_abrupt_v(out.val) {
                out
            } else {
                Outcome { val: ObjV::ReturnValue { Value: Box::new(out.val) }, env: out.env }
            }
        },
        StmtV::LetStatement { Token, Name, Value } => {
            let out = eval_expr_v(Value, fr, h, fuel);
            if is_abrupt_v(out.val) {
                out
            } else if 0 <= fr < out.env.len() {
                Outcome {
                    val: out.val,
                    env: out.env.update(
                        fr,
                        FrameV {
                            bindings: out.env[fr].bindings.insert(Name.Value, out.val),
                            outer: out.env[fr].outer,
                        },
                    ),
                }
            } else {
                out
            }
        },
        StmtV::Nil => Outcome { val: ObjV::Null, env: h },
    }
}

/// Evaluates the statements of a block from position `i` on: the block's
/// value is its last statement's value, or `Null` when empty, and the first
/// abrupt value stops it and passes out unchanged.
pub open spec fn eval_block_from_v(ss: Seq<StmtV>, i: int, fr: int, h: Seq<FrameV>, fuel: nat) -> Outcome
    decreases fuel, 1nat, ss, (if i < ss.len() { ss.len() - i } else { 0 }),
{
    if !(0 <= i < ss.len()) {
        Outcome { val: ObjV::Null, env: h }
    } else {
        let out = eval_stmt_v(ss[i], fr, h, fuel);
        if is_abrupt_v(out.val) {
            out
        } else if i == ss.len() - 1 {
            out
        } else {
            eval_block_from_v(ss, i + 1, fr, out.env, fuel)
        }
    }
}

/// Evaluates argument expressions left to right from position `i` on,
/// stopping at the first abrupt value.
pub open spec fn eval_args_from_v(es: Seq<ExprV>, i: int, fr: int, h: Seq<FrameV>, fuel: nat) -> ArgsOutcome
    decreases fuel, 1nat, es, (if i < es.len() { es.len() - i } else { 0 }),
{
    if !(0 <= i < es.len()) {
        ArgsOutcome { res: Ok(Seq::empty()), env: h }
    } else {
        let out = eval_expr_v(es[i], fr, h, fuel);
        if is_abrupt_v(out.val) {
            ArgsOutcome { res: Err(out.val), env: out.env }
        } else {
            let rest = eval_args_from_v(es, i + 1, fr, out.env, fuel);
            match rest.res {
                Ok(vs) => ArgsOutcome { res: Ok(seq![out.val] + vs), env: rest.env },
                Err(e) => rest,
            }
        }
    }
}

/// Applies an evaluated callee to evaluated arguments. A non-function callee
/// and an argument count differing from the parameter count are errors; a
/// call with no fuel left is the `"stack overflow"` error. Otherwise a fresh
/// scope enclosed by the captured scope binds the parameters, the body runs
/// there, and a `ReturnValue` escaping it is unwrapped.
pub open spec fn apply_function_v(f: ObjV, args: Seq<ObjV>, h: Seq<FrameV>, fuel: nat) -> Outcome
    decreases fuel, 0nat, f, 0nat,
{
    match f {
        ObjV::Function { Parameters, Body, Env } => {
            if args.len() != Parameters.len() {
                Outcome { val: ObjV::Error { Message: "wrong number of arguments"@ }, env: h }
            } else if !(0 <= Env < h.len()) {
                Outcome { val: ObjV::Null, env: h }
            } else if fuel == 0 {
                Outcome { val: ObjV::Error { Message: "stack overflow"@ }, env: h }
            } else {
                let frame = FrameV { bindings: bind_params_v(Parameters, args), outer: Some(Env) };
                let out = eval_stmt_v(*Body, h.len() as int, h.push(frame), (fuel - 1) as nat);
                Outcome { val: unwrap_return_v(out.val), env: out.env }
            }
        },
        _ => Outcome { val: ObjV::Error { Message: msg_not_a_function_v(spec_type_name(f)) }, env: h },
    }
}

/// Evaluates a whole program: its statements run in order in scope `fr`; the
/// program's value is its last statement's value, with an escaping
/// `ReturnValue` unwrapped and an error passed through unchanged.
pub open spec fn eval_program_v(ss: Seq<StmtV>, fr: int, h: Seq<FrameV>, fuel: nat) -> Outcome {
    let out = eval_block_from_v(ss, 0, fr, h, fuel);
    Outcome { val: unwrap_return_v(out.val), env: out.env }
}

/// Truthiness of an evaluated object.
pub(crate) fn isTruthy(obj: &Object) -> (r: bool)
    ensures
        r == is_truthy_v(obj@),
{
    match obj {
        Object::Null => false,
        Object::Boolean { Value } => *Value,
        _ => true,
    }
}

/// Whether an object is the error variant.
pub(crate) fn isError(obj: &Object) -> (r: bool)
    ensures
        r == is_error_v(obj@),
{
    match obj {
        Object::Error { Message } => true,
        _ => false,
    }
}

/// Whether an object aborts the surrounding construct.
pub(crate) fn isAbrupt(obj: &Object) -> (r: bool)
    ensures
        r == is_abrupt_v(obj@),
{
    match obj {
        Object::Error { Message } => true,
        Object::ReturnValue { Value } => true,
        _ => false,
    }
}

/// Wraps a message into an error object.
pub(crate) fn newError(format: String) -> (r: Object)
    ensures
        r@ == (ObjV::Error { Message: format@ }),
{
    Object::Error { Message: format }
}

/// Strips one `ReturnValue` wrapper, if present.
pub(crate) fn unwrapReturnValue(obj: Object) -> (r: Object)
    ensures
        r@ == unwrap_return_v(obj@),
{
    match obj {
        Object::ReturnValue { Value } => *Value,
        o => o,
    }
}

fn msg_unknown_prefix(op: &String, t: &str) -> (r: String)
    ensures
        r@ == msg_unknown_prefix_v(op@, t@),
{
    let mut r = <String as StringExecFns>::from_str("unknown operator: ");
    r.append(op.as_str());
    r.append(t);
    r
}

fn msg_binary(head: &'static str, lt: &str, op: &String, rt: &str) -> (r: String)
    ensures
        r@ == head@ + lt@ + " "@ + op@ + " "@ + rt@,
{
    let mut r = <String as StringExecFns>::from_str(head);
    r.append(lt);
    r.append(" ");
    r.append(op.as_str());
    r.append(" ");
    r.append(rt);
    r
}

/// The `!` operator: boolean negation of truthiness.
pub(crate) fn evalBangOperatorExpression(right: Object) -> (r: Object)
    ensures
        r@ == (ObjV::Boolean { Value: !is_truthy_v(right@) }),
{
    if isTruthy(&right) {
        Object::Boolean { Value: false }
    } else {
        Object::Boolean { Value: true }
    }
}

/// The `-` operator: arithmetic negation of an integer operand.
pub(crate) fn evalMinusPrefixOperatorExpression(right: Object) -> (r: Object)
    ensures
        r@ == eval_prefix_v("-"@, right@),
{
    proof {
        reveal_strlit("!");
        reveal_strlit("-");
        assert("-"@[0] == '-' && "!"@[0] == '!');
        assert("-"@ != "!"@);
    }
    match &right {
        Object::Integer { Value } => Object::Integer { Value: 0i64.wrapping_sub(*Value) },
        _ => {
            let t = right.Type();
            let minus = <String as StringExecFns>::from_str("-");
            newError(msg_unknown_prefix(&minus, t))
        },
    }
}

/// Dispatches a prefix operator over its evaluated operand.
pub(crate) fn evalPrefixExpression(operator: &String, right: Object) -> (r: Object)
    ensures
        r@ == eval_prefix_v(operator@, right@),
{
    if string_eq_text(operator, "!") {
        evalBangOperatorExpression(right)
    } else if string_eq_text(operator, "-") {
        evalMinusPrefixOperatorExpression(right)
    } else {
        let t = right.Type();
        newError(msg_unknown_prefix(operator, t))
    }
}

/// Whether two objects carry the same type name.
fn sameType(l: &Object, r: &Object) -> (b: bool)
    ensures
        b == same_type_v(l@, r@),
{
    match (l, r) {
        (Object::Integer { Value: x }, Object::Integer { Value: y }) => true,
        (Object::Boolean { Value: x }, Object::Boolean { Value: y }) => true,
        (Object::Null, Object::Null) => true,
        (Object::Function { Parameters: a, Body: b2, Env: c }, Object::Function {
            Parameters: d,
            Body: e,
            Env: f,
        }) => true,
        (Object::Error { Message: x }, Object::Error { Message: y }) => true,
        (Object::ReturnValue { Value: x }, Object::ReturnValue { Value: y }) => true,
        _ => false,
    }
}

/// The integer infix rules.
pub(crate) fn evalIntegerInfixExpression(operator: &String, left: i64, right: i64) -> (r: Object)
    ensures
        r@ == eval_int_infix_v(operator@, left, right),
{
    if string_eq_text(operator, "+") {
        Object::Integer { Value: left.wrapping_add(right) }
    } else if string_eq_text(operator, "-") {
        Object::Integer { Value: left.wrapping_sub(right) }
    } else if string_eq_text(operator, "*") {
        Object::Integer { Value: left.wrapping_mul(right) }
    } else if string_eq_text(operator, "/") {
        if right == 0 {
            newError(<String as StringExecFns>::from_str("division by zero"))
        } else {
            match left.checked_div(right) {
                Some(q) => Object::Integer { Value: q },
                None => Object::Integer { Value: i64::MIN },
            }
        }
    } else if string_eq_text(operator, "<") {
        Object::Boolean { Value: left < right }
    } else if string_eq_text(operator, ">") {
        Object::Boolean { Value: left > right }
    } else if string_eq_text(operator, "==") {
        Object::Boolean { Value: left == right }
    } else if string_eq_text(operator, "!=") {
        Object::Boolean { Value: left != right }
    } else {
        newError(msg_binary("unknown operator: ", "INTEGER", operator, "INTEGER"))
    }
}

/// Dispatches an infix operator over its evaluated operands.
pub(crate) fn evalInfixExpression(operator: &String, left: Object, right: Object) -> (r: Object)
    ensures
        r@ == eval_infix_v(operator@, left@, right@),
{
    if let (Object::Integer { Value: x }, Object::Integer { Value: y }) = (&left, &right) {
        return evalIntegerInfixExpression(operator, *x, *y);
    }
    if !sameType(&left, &right) {
        let lt = left.Type();
        let rt = right.Type();
        return newError(msg_binary("type mismatch: ", lt, operator, rt));
    }
    if string_eq_text(operator, "==") {
        let b = object::obj_eq(&left, &right);
        return Object::Boolean { Value: b };
    }
    if string_eq_text(operator, "!=") {
        let b = object::obj_eq(&left, &right);
        return Object::Boolean { Value: !b };
    }
    let lt = left.Type();
    let rt = right.Type();
    newError(msg_binary("unknown operator: ", lt, operator, rt))
}


fn msg_ident_not_found(name: &String) -> (r: String)
    ensures
        r@ == msg_ident_not_found_v(name@),
{
    let mut r = <String as StringExecFns>::from_str("identifier not found: ");
    r.append(name.as_str());
    r
}

fn msg_not_a_function(t: &str) -> (r: String)
    ensures
        r@ == msg_not_a_function_v(t@),
{
    let mut r = <String as StringExecFns>::from_str("not a function: ");
    r.append(t);
    r
}

/// Resolves an identifier in scope `fr`; an unbound name is an error.
pub(crate) fn evalIdentifier(node: &Identifier, env: &Environment, fr: usize) -> (r: Object)
    requires
        env.wf(),
        fr < env@.len(),
    ensures
        r@ == (match env_lookup(env@, fr as int, node@.Value) {
            Some(v) => v,
            None => ObjV::Error { Message: msg_ident_not_found_v(node@.Value) },
        }),
        obj_wf(r@, env@.len() as int),
{
    proof {
        lemma_env_lookup_wf(env@, fr as int, node@.Value);
    }
    match env.frame_get(fr, &node.Value) {
        Some(s) => s.clone(),
        None => newError(msg_ident_not_found(&node.Value)),
    }
}

/// Evaluates one statement in scope `fr`.
pub(crate) fn evalStatement(stmt: &Statement, env: &mut Environment, fr: usize, fuel: u64) -> (r:
    Object)
    requires
        old(env).wf(),
        fr < old(env)@.len(),
    ensures
        final(env).wf(),
        old(env)@.len() <= final(env)@.len(),
        ({
            let out = eval_stmt_v(stmt@, fr as int, old(env)@, fuel as nat);
            r@ == out.val && final(env)@ == out.env
        }),
        obj_wf(r@, final(env)@.len() as int),
    decreases fuel, 1nat, *stmt, 1nat,
{
    match stmt {
        Statement::ExpressionStatement { Token, Expression } => evalExpression(
            Expression,
            env,
            fr,
            fuel,
        ),
        Statement::BlockStatement { Token, Statements } => evalBlockStatement(stmt, env, fr, fuel),
        Statement::ReturnStatement { Token, ReturnValue } => {
            let val = evalExpression(ReturnValue, env, fr, fuel);
            if isAbrupt(&val) {
                return val;
            }
            Object::ReturnValue { Value: Box::new(val) }
        },
        Statement::LetStatement { Token, Name, Value } => {
            let val = evalExpression(Value, env, fr, fuel);
            if isAbrupt(&val) {
                return val;
            }
            env.frame_set(fr, &Name.Value, val.clone());
            val
        },
        Statement::Nil => Object::Null,
    }
}

/// Evaluates an expression in scope `fr`.
pub(crate) fn evalExpression(exp: &Expression, env: &mut Environment, fr: usize, fuel: u64) -> (r:
    Object)
    requires
        old(env).wf(),
        fr < old(env)@.len(),
    ensures
        final(env).wf(),
        old(env)@.len() <= final(env)@.len(),
        ({
            let out = eval_expr_v(exp@, fr as int, old(env)@, fuel as nat);
            r@ == out.val && final(env)@ == out.env
        }),
        obj_wf(r@, final(env)@.len() as int),
    decreases fuel, 1nat, *exp, 1nat,
{
    match exp {
        Expression::Nil => Object::Null,
        Expression::IntergerLiteral { Token, Value } => Object::Integer { Value: *Value },
        Expression::Boolean { Token, Value } => Object::Boolean { Value: *Value },
        Expression::Identifier(idt) => evalIdentifier(idt, env, fr),
        Expression::PrefixExpression { Token, Operator, Right } => {
            let right = evalExpression(&**Right, env, fr, fuel);
            if isAbrupt(&right) {
                return right;
            }
            evalPrefixExpression(Operator, right)
        },
        Expression::InfixExpression { Token, Left, Operator, Right } => {
            let left = evalExpression(&**Left, env, fr, fuel);
            if isAbrupt(&left) {
                return left;
            }
            let right = evalExpression(&**Right, env, fr, fuel);
            if isAbrupt(&right) {
                return right;
            }
            evalInfixExpression(Operator, left, right)
        },
        Expression::IfExpression { Token, Condition, Consequence, Alternative } => evalIfExpression(
            exp,
            env,
            fr,
            fuel,
        ),
        Expression::FunctionLiteral { Token, Parameters, Body } => Object::Function {
            Parameters: ast::clone_idents(Parameters),
            Body: Box::new((&**Body).clone()),
            Env: fr,
        },
        Expression::CallExpression { Token, Function, Arguments } => {
            let function = evalExpression(&**Function, env, fr, fuel);
            if isAbrupt(&function) {
                return function;
            }
            let ghost h1 = env@;
            let ghost mid_len = env@.len();
            let args = evalExpressions(Arguments, env, fr, fuel);
            proof {
                lemma_objs_view(args@);
            }
            if args.len() == 1 && isAbrupt(&args[0]) {
                proof {
                    let a2 = eval_args_from_v(
                        exprs_view(Arguments@),
                        0,
                        fr as int,
                        h1,
                        fuel as nat,
                    );
                    match a2.res {
                        Ok(vs) => {
                            assert(vs[0] == objs_view(args@)[0]);
                        },
                        Err(e) => {},
                    }
                }
                return args[0].clone();
            }
            proof {
                lemma_obj_wf_mono(function@, mid_len as int, env@.len() as int);
            }
            applyFunction(function, args, env, fuel)
        },
    }
}

/// Evaluates the condition of an `if` and then the branch it selects; a
/// missing alternative yields `Null`.
pub(crate) fn evalIfExpression(ie: &Expression, env: &mut Environment, fr: usize, fuel: u64) -> (r:
    Object)
    requires
        old(env).wf(),
        fr < old(env)@.len(),
        *ie is IfExpression,
    ensures
        final(env).wf(),
        old(env)@.len() <= final(env)@.len(),
        ({
            let out = eval_expr_v(ie@, fr as int, old(env)@, fuel as nat);
            r@ == out.val && final(env)@ == out.env
        }),
        obj_wf(r@, final(env)@.len() as int),
    decreases fuel, 1nat, *ie, 0nat,
{
    match ie {
        Expression::IfExpression { Token, Condition, Consequence, Alternative } => {
            let condition = evalExpression(&**Condition, env, fr, fuel);
            if isAbrupt(&condition) {
                return condition;
            }
            if isTruthy(&condition) {
                return evalStatement(&**Consequence, env, fr, fuel);
            }
            if let Statement::Nil = &**Alternative {
                proof {
                    assert(ast::stmt_view(**Alternative) is Nil);
                }
                return Object::Null;
            }
            proof {
                assert(!(ast::stmt_view(**Alternative) is Nil));
            }
            evalStatement(&**Alternative, env, fr, fuel)
        },
        _ => Object::Null,
    }
}

/// Evaluates a block statement: its statements run in order in the current
/// scope, and the first abrupt value stops the block and passes out
/// unchanged.
pub(crate) fn evalBlockStatement(block: &Statement, env: &mut Environment, fr: usize, fuel: u64) -> (r: Object)
    requires
        old(env).wf(),
        fr < old(env)@.len(),
    ensures
        final(env).wf(),
        old(env)@.len() <= final(env)@.len(),
        ({
            let out = match *block {
                Statement::BlockStatement { Token, Statements } => eval_stmt_v(
                    block@,
                    fr as int,
                    old(env)@,
                    fuel as nat,
                ),
                _ => Outcome { val: ObjV::Null, env: old(env)@ },
            };
            r@ == out.val && final(env)@ == out.env
        }),
        obj_wf(r@, final(env)@.len() as int),
    decreases fuel, 1nat, *block, 0nat,
{
    match block {
        Statement::BlockStatement { Token, Statements } => evalBlockFrom(
            Statements,
            0,
            env,
            fr,
            fuel,
        ),
        _ => Object::Null,
    }
}

/// Evaluates the statements of a block from position `i` on.
fn evalBlockFrom(stmts: &Vec<Statement>, i: usize, env: &mut Environment, fr: usize, fuel: u64) -> (r: Object)
    requires
        old(env).wf(),
        fr < old(env)@.len(),
        i <= stmts@.len(),
    ensures
        final(env).wf(),
        old(env)@.len() <= final(env)@.len(),
        ({
            let out = eval_block_from_v(
                stmts_view(stmts@),
                i as int,
                fr as int,
                old(env)@,
                fuel as nat,
            );
            r@ == out.val && final(env)@ == out.env
        }),
        obj_wf(r@, final(env)@.len() as int),
    decreases fuel, 1nat, *stmts, stmts@.len() - i,
{
    proof {
        lemma_stmts_view(stmts@);
    }
    if i >= stmts.len() {
        return Object::Null;
    }
    let out = evalStatement(&stmts[i], env, fr, fuel);
    if isAbrupt(&out) {
        return out;
    }
    if i == stmts.len() - 1 {
        return out;
    }
    evalBlockFrom(stmts, i + 1, env, fr, fuel)
}

/// Evaluates argument expressions left to right; the first abrupt value is
/// handed back alone in place of the list.
pub(crate) fn evalExpressions(exps: &Vec<Expression>, env: &mut Environment, fr: usize, fuel: u64) -> (r: Vec<Object>)
    requires
        old(env).wf(),
        fr < old(env)@.len(),
    ensures
        final(env).wf(),
        old(env)@.len() <= final(env)@.len(),
        ({
            let a = eval_args_from_v(exprs_view(exps@), 0, fr as int, old(env)@, fuel as nat);
            final(env)@ == a.env && (match a.res {
                Ok(vs) => objs_view(r@) == vs && (forall|j: int|
                    0 <= j < vs.len() ==> !is_abrupt_v(#[trigger] vs[j]) && obj_wf(
                        vs[j],
                        final(env)@.len() as int,
                    )),
                Err(e) => r@.len() == 1 && r@[0]@ == e && is_abrupt_v(e) && obj_wf(
                    e,
                    final(env)@.len() as int,
                ),
            })
        }),
    decreases fuel, 1nat, *exps, exps@.len() + 1,
{
    evalExpressionsFrom(exps, 0, env, fr, fuel)
}

/// Evaluates argument expressions from position `i` on.
fn evalExpressionsFrom(exps: &Vec<Expression>, i: usize, env: &mut Environment, fr: usize, fuel: u64) -> (r: Vec<Object>)
    requires
        old(env).wf(),
        fr < old(env)@.len(),
        i <= exps@.len(),
    ensures
        final(env).wf(),
        old(env)@.len() <= final(env)@.len(),
        ({
            let a = eval_args_from_v(
                exprs_view(exps@),
                i as int,
                fr as int,
                old(env)@,
                fuel as nat,
            );
            final(env)@ == a.env && (match a.res {
                Ok(vs) => objs_view(r@) == vs && (forall|j: int|
                    0 <= j < vs.len() ==> !is_abrupt_v(#[trigger] vs[j]) && obj_wf(
                        vs[j],
                        final(env)@.len() as int,
                    )),
                Err(e) => r@.len() == 1 && r@[0]@ == e && is_abrupt_v(e) && obj_wf(
                    e,
                    final(env)@.len() as int,
                ),
            })
        }),
    decreases fuel, 1nat, *exps, exps@.len() - i,
{
    proof {
        lemma_exprs_view(exps@);
    }
    if i >= exps.len() {
        let r: Vec<Object> = Vec::new();
        proof {
            assert(objs_view(r@) =~= Seq::<ObjV>::empty());
        }
        return r;
    }
    let out = evalExpression(&exps[i], env, fr, fuel);
    if isAbrupt(&out) {
        let mut r: Vec<Object> = Vec::new();
        r.push(out);
        return r;
    }
    let ghost h1 = env@;
    let ghost mid_len = env@.len();
    let rest = evalExpressionsFrom(exps, i + 1, env, fr, fuel);
    proof {
        lemma_objs_view(rest@);
    }
    if rest.len() == 1 && isAbrupt(&rest[0]) {
        proof {
            let a2 = eval_args_from_v(
                exprs_view(exps@),
                i + 1 as int,
                fr as int,
                h1,
                fuel as nat,
            );
            match a2.res {
                Ok(vs) => {
                    assert(vs[0] == objs_view(rest@)[0]);
                },
                Err(e) => {},
            }
        }
        return rest;
    }
    let mut r = rest;
    let ghost rest_view = r@;
    r.insert(0, out);
    proof {
        lemma_objs_view(r@);
        lemma_objs_view(rest_view);
        assert(r@.drop_first() =~= rest_view);
        let a = eval_args_from_v(exprs_view(exps@), i as int, fr as int, old(env)@, fuel as nat);
        match a.res {
            Ok(vs) => {
                assert(objs_view(r@) =~= vs);
                lemma_obj_wf_mono(r@[0]@, mid_len as int, env@.len() as int);
            },
            Err(e) => {},
        }
    }
    r
}

/// Applies an evaluated callee to its evaluated arguments.
pub(crate) fn applyFunction(f: Object, args: Vec<Object>, env: &mut Environment, fuel: u64) -> (r:
    Object)
    requires
        old(env).wf(),
        obj_wf(f@, old(env)@.len() as int),
        forall|j: int|
            0 <= j < args@.len() ==> !is_abrupt_v(#[trigger] objs_view(args@)[j]) && obj_wf(
                objs_view(args@)[j],
                old(env)@.len() as int,
            ),
    ensures
        final(env).wf(),
        old(env)@.len() <= final(env)@.len(),
        ({
            let out = apply_function_v(f@, objs_view(args@), old(env)@, fuel as nat);
            r@ == out.val && final(env)@ == out.env
        }),
        obj_wf(r@, final(env)@.len() as int),
    decreases fuel, 0nat, f, 0nat,
{
    proof {
        lemma_objs_view(args@);
    }
    match &f {
        Object::Function { Parameters, Body, Env } => {
            if args.len() != Parameters.len() {
                return newError(
                    <String as StringExecFns>::from_str("wrong number of arguments"),
                );
            }
            if fuel == 0 {
                return newError(<String as StringExecFns>::from_str("stack overflow"));
            }
            let fr2 = extendFunctionEnv(Parameters, *Env, &args, env);
            let evaluated = evalStatement(&**Body, env, fr2, fuel - 1);
            unwrapReturnValue(evaluated)
        },
        _ => {
            let t = f.Type();
            newError(msg_not_a_function(t))
        },
    }
}

/// Makes the scope of one call activation: a fresh frame enclosed by the
/// captured scope, with each parameter bound to its argument.
pub(crate) fn extendFunctionEnv(
    Parameters: &Vec<Identifier>,
    envIdx: usize,
    args: &Vec<Object>,
    env: &mut Environment,
) -> (fr2: usize)
    requires
        old(env).wf(),
        envIdx < old(env)@.len(),
        Parameters@.len() == args@.len(),
        forall|j: int|
            0 <= j < args@.len() ==> obj_wf(
                #[trigger] objs_view(args@)[j],
                old(env)@.len() as int,
            ),
    ensures
        final(env).wf(),
        fr2 == old(env)@.len(),
        final(env)@ == old(env)@.push(
            FrameV {
                bindings: bind_params_v(idents_view(Parameters@), objs_view(args@)),
                outer: Some(envIdx as int),
            },
        ),
{
    proof {
        lemma_objs_view(args@);
    }
    let ghost pv = idents_view(Parameters@);
    let ghost av = objs_view(args@);
    let fr2 = env.push_frame(envIdx);
    let mut i: usize = 0;
    while i < Parameters.len()
        invariant
            env.wf(),
            i <= Parameters@.len(),
            Parameters@.len() == args@.len(),
            fr2 == old(env)@.len(),
            pv == idents_view(Parameters@),
            av == objs_view(args@),
            pv.len() == Parameters@.len(),
            av.len() == args@.len(),
            forall|j: int| 0 <= j < av.len() ==> av[j] == args@[j]@,
            forall|j: int| 0 <= j < av.len() ==> obj_wf(#[trigger] av[j], old(env)@.len() as int),
            env@ == old(env)@.push(
                FrameV {
                    bindings: bind_params_v(
                        pv.subrange(0, i as int),
                        av.subrange(0, i as int),
                    ),
                    outer: Some(envIdx as int),
                },
            ),
        decreases Parameters@.len() - i,
    {
        let val = args[i].clone();
        proof {
            assert(val@ == av[i as int]);
            lemma_obj_wf_mono(val@, old(env)@.len() as int, env@.len() as int);
        }
        env.frame_set(fr2, &Parameters[i].Value, val);
        i = i + 1;
        proof {
            let p_pre = pv.subrange(0, i as int);
            let a_pre = av.subrange(0, i as int);
            assert(p_pre.drop_last() =~= pv.subrange(0, i - 1 as int));
            assert(a_pre.drop_last() =~= av.subrange(0, i - 1 as int));
            assert(p_pre.last() == pv[i - 1 as int]);
            assert(a_pre.last() == av[i - 1 as int]);
            assert(pv[i - 1 as int] == Parameters@[i - 1 as int]@);
            assert(env@ =~= old(env)@.push(
                FrameV {
                    bindings: bind_params_v(p_pre, a_pre),
                    outer: Some(envIdx as int),
                },
            ));
        }
    }
    proof {
        assert(pv.subrange(0, pv.len() as int) =~= pv);
        assert(av.subrange(0, av.len() as int) =~= av);
    }
    fr2
}

/// Evaluates a statement sequence as a whole program: an escaping
/// `ReturnValue` is unwrapped and an error passes through unchanged.
pub(crate) fn evalStatements(stmts: &Vec<Statement>, env: &mut Environment, fr: usize, fuel: u64) -> (r: Object)
    requires
        old(env).wf(),
        fr < old(env)@.len(),
    ensures
        final(env).wf(),
        old(env)@.len() <= final(env)@.len(),
        ({
            let out = eval_program_v(stmts_view(stmts@), fr as int, old(env)@, fuel as nat);
            r@ == out.val && final(env)@ == out.env
        }),
        obj_wf(r@, final(env)@.len() as int),
{
    let result = evalBlockFrom(stmts, 0, env, fr, fuel);
    unwrapReturnValue(result)
}

/// Evaluates a program against the host's environment. The program's value
/// is its last statement's value (`Null` when empty); an early return is
/// unwrapped at the top and an error value passes out unchanged. Top-level
/// bindings stay in the environment for later evaluations.
pub fn Eval(node: Program, env: &mut Environment) -> (r: Object)
    requires
        old(env).wf(),
    ensures
        final(env).wf(),
        ({
            let out = eval_program_v(node@, 0, old(env)@, EVAL_FUEL as nat);
            r@ == out.val && final(env)@ == out.env
        }),
        obj_wf(r@, final(env)@.len() as int),
{
    evalStatements(&node.Statements, env, 0, EVAL_FUEL)
}

} // verus!
