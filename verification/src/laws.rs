//! Laws of the evaluation model: properties that hold of every input, stated
//! once over the semantics and proved for good.

use vstd::prelude::*;
use crate::ast::{ExprV, StmtV};
use crate::evaluator::{
    Outcome, eval_block_from_v, eval_expr_v, eval_prefix_v, eval_stmt_v, is_abrupt_v, is_truthy_v,
};
use crate::object::{FrameV, ObjV};
use crate::token::TokenV;

verus! {

/// Applying `!` twice to any evaluated value yields exactly the value's
/// truthiness, as a boolean.
pub proof fn lemma_double_negation(x: ObjV)
    ensures
        eval_prefix_v("!"@, eval_prefix_v("!"@, x)) == (ObjV::Boolean { Value: is_truthy_v(x) }),
{
}

/// `!!e` evaluates to the truthiness of `e`'s value whenever `e` itself
/// evaluates to a plain value, with the same effect on the environment.
pub proof fn lemma_double_negation_expr(
    t1: TokenV,
    t2: TokenV,
    e: ExprV,
    fr: int,
    h: Seq<FrameV>,
    fuel: nat,
)
    ensures
        ({
            let inner = eval_expr_v(e, fr, h, fuel);
            !is_abrupt_v(inner.val) ==> eval_expr_v(
                ExprV::PrefixExpression {
                    Token: t1,
                    Operator: "!"@,
                    Right: Box::new(
                        ExprV::PrefixExpression {
                            Token: t2,
                            Operator: "!"@,
                            Right: Box::new(e),
                        },
                    ),
                },
                fr,
                h,
                fuel,
            ) == (Outcome { val: ObjV::Boolean { Value: is_truthy_v(inner.val) }, env: inner.env })
        }),
{
    let inner = eval_expr_v(e, fr, h, fuel);
    if !is_abrupt_v(inner.val) {
        let once = ExprV::PrefixExpression { Token: t2, Operator: "!"@, Right: Box::new(e) };
        assert(eval_expr_v(once, fr, h, fuel) == (Outcome {
            val: ObjV::Boolean { Value: !is_truthy_v(inner.val) },
            env: inner.env,
        }));
    }
}

/// An `if` whose condition comes out falsy and which has no alternative
/// yields `Null`, keeping the condition's effect on the environment.
pub proof fn lemma_if_without_taken_branch(
    t: TokenV,
    c: ExprV,
    q: Box<StmtV>,
    fr: int,
    h: Seq<FrameV>,
    fuel: nat,
)
    ensures
        ({
            let cond = eval_expr_v(c, fr, h, fuel);
            (!is_abrupt_v(cond.val) && !is_truthy_v(cond.val)) ==> eval_expr_v(
                ExprV::IfExpression {
                    Token: t,
                    Condition: Box::new(c),
                    Consequence: q,
                    Alternative: Box::new(StmtV::Nil),
                },
                fr,
                h,
                fuel,
            ) == (Outcome { val: ObjV::Null, env: cond.env })
        }),
{
}

/// An `if` whose condition comes out truthy yields its consequence block's
/// value, evaluated after the condition.
pub proof fn lemma_if_taken_branch(
    t: TokenV,
    c: ExprV,
    q: Box<StmtV>,
    a: Box<StmtV>,
    fr: int,
    h: Seq<FrameV>,
    fuel: nat,
)
    ensures
        ({
            let cond = eval_expr_v(c, fr, h, fuel);
            (!is_abrupt_v(cond.val) && is_truthy_v(cond.val)) ==> eval_expr_v(
                ExprV::IfExpression {
                    Token: t,
                    Condition: Box::new(c),
                    Consequence: q,
                    Alternative: a,
                },
                fr,
                h,
                fuel,
            ) == eval_stmt_v(*q, fr, cond.env, fuel)
        }),
{
}

/// A `return` met inside a block stops the block: the statements after it
/// are not evaluated, and the wrapped value passes out unchanged, however
/// deeply blocks are nested.
pub proof fn lemma_return_short_circuits(
    ss: Seq<StmtV>,
    i: int,
    fr: int,
    h: Seq<FrameV>,
    fuel: nat,
)
    ensures
        ({
            let out = eval_stmt_v(ss[i], fr, h, fuel);
            (0 <= i < ss.len() && out.val is ReturnValue) ==> eval_block_from_v(ss, i, fr, h, fuel)
                == out
        }),
{
}

} // verus!
