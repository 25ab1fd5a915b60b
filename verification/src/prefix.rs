//! Lowering only adds to a plan.

use vstd::prelude::*;

use crate::ast::{LValue, SExpr, Type};
use crate::env::EnvView;
use crate::function::{arg_types, lower_function, body_env, start};
use crate::ir::{ir_types, IrType};
use crate::lower::{
    cond_blocks, env_after, env_after_all, env_after_arms, ir, lower, lower_all, lower_arms,
    lower_place, size,
};
use crate::step::Action;

verus! {

/// Whether a plan goes on where another one ends.
pub open spec fn continues(from: Seq<Action>, to: Seq<Action>) -> bool {
    &&& from.len() <= to.len()
    &&& forall|i: int| 0 <= i < from.len() ==> #[trigger] to[i] == from[i]
}

/// What was planned before an expression stays as it was: to lower it only adds
/// to the plan.
pub proof fn law_lowering_continues(
    e: SExpr<'_>,
    acts: Seq<Action>,
    env: EnvView,
    brk: Option<int>,
)
    ensures
        continues(acts, lower(e, acts, env, brk).acts),
    decreases e,
{
    let n = acts.len() as int;
    match e {
        SExpr::Sequence { values, .. } => lemma_all_continue(values@, acts, env.enter(), brk),
        SExpr::Cond { meta, values, elsy } => {
            let count = values@.len();
            lemma_blocks_continue(count, acts);
            let acts1 = cond_blocks(count, acts).push(Action::CreateBlock).push(
                Action::AppendBlockParam(n + 2 * count, ir(meta.type_)),
            );
            lemma_arms_continue(values@, acts1, env, brk, n, n + 2 * count);
            let acts2 = lower_arms(values@, acts1, env, brk, n, n + 2 * count);
            match elsy {
                Some(e) => law_lowering_continues(
                    *e,
                    acts2,
                    env_after_arms(values@, env).enter(),
                    brk,
                ),
                None => {},
            }
        },
        SExpr::Loop { meta, value } => {
            let acts1 = acts.push(Action::CreateBlock).push(Action::CreateBlock).push(
                Action::AppendBlockParam(n + 1, ir(meta.type_)),
            ).push(Action::Jump(n, None)).push(Action::SwitchToBlock(n));
            law_lowering_continues(*value, acts1, env.enter(), Some(n + 1));
        },
        SExpr::Break { value, .. } => match value {
            Some(e) => law_lowering_continues(*e, acts, env, brk),
            None => {},
        },
        SExpr::Type { value, .. } => law_lowering_continues(*value, acts, env, brk),
        SExpr::FuncCall { values, .. } => lemma_all_continue(values@, acts, env, brk),
        SExpr::Declare { meta, value, .. } => law_lowering_continues(
            *value,
            acts.push(Action::DeclareVar(env.next(), ir(meta.type_))),
            env.declare(ir(meta.type_)),
            brk,
        ),
        SExpr::Assign { lvalue, value, .. } => {
            law_lowering_continues(*value, acts, env, brk);
            let v = lower(*value, acts, env, brk);
            lemma_place_continues(lvalue, v.acts, env_after(*value, env), brk);
        },
        SExpr::Attribute { top, .. } => law_lowering_continues(*top, acts, env, brk),
        _ => {},
    }
}

pub proof fn lemma_all_continue(
    es: Seq<SExpr<'_>>,
    acts: Seq<Action>,
    env: EnvView,
    brk: Option<int>,
)
    ensures
        continues(acts, lower_all(es, acts, env, brk).acts),
    decreases es,
{
    if es.len() > 0 {
        lemma_all_continue(es.drop_last(), acts, env, brk);
        law_lowering_continues(
            es[es.len() - 1],
            lower_all(es.drop_last(), acts, env, brk).acts,
            env_after_all(es.drop_last(), env),
            brk,
        );
    }
}

pub proof fn lemma_blocks_continue(count: nat, acts: Seq<Action>)
    ensures
        continues(acts, cond_blocks(count, acts)),
    decreases count,
{
    if count > 0 {
        lemma_blocks_continue((count - 1) as nat, acts);
    }
}

pub proof fn lemma_arms_continue(
    arms: Seq<(SExpr<'_>, SExpr<'_>)>,
    acts: Seq<Action>,
    env: EnvView,
    brk: Option<int>,
    first: int,
    end: int,
)
    ensures
        continues(acts, lower_arms(arms, acts, env, brk, first, end)),
    decreases arms,
{
    if arms.len() > 0 {
        let i = arms.len() - 1;
        let (other, then) = (first + 2 * i, first + 2 * i + 1);
        lemma_arms_continue(arms.drop_last(), acts, env, brk, first, end);
        let before = lower_arms(arms.drop_last(), acts, env, brk, first, end);
        let inner = env_after_arms(arms.drop_last(), env).enter();
        law_lowering_continues(arms[i].0, before, inner, brk);
        let cond = lower(arms[i].0, before, inner, brk);
        law_lowering_continues(
            arms[i].1,
            cond.acts.push(Action::Brz(cond.value, other)).push(Action::Jump(then, None)).push(
                Action::SwitchToBlock(then),
            ),
            env_after(arms[i].0, inner),
            brk,
        );
    }
}

pub proof fn lemma_place_continues(
    place: LValue<'_>,
    acts: Seq<Action>,
    env: EnvView,
    brk: Option<int>,
)
    ensures
        continues(acts, lower_place(place, acts, env, brk).acts),
    decreases place,
{
    match place {
        LValue::Deref(v) => lemma_place_continues(*v, acts, env, brk),
        LValue::Get(t, v, i) => {
            law_lowering_continues(*i, acts, env, brk);
            let index = lower(*i, acts, env, brk);
            lemma_place_continues(
                *v,
                index.acts.push(Action::ImulImm(index.value, size(t))),
                env_after(*i, env),
                brk,
            );
        },
        _ => {},
    }
}

/// A function begins with its signature.
pub proof fn lemma_function_begins(args: Seq<(&str, Type<'_>)>, ret: Type<'_>, expr: SExpr<'_>)
    ensures
        lower_function(args, ret, expr).len() > 0,
        lower_function(args, ret, expr)[0] == Action::Begin(ir_types(arg_types(args)), ir(ret)),
{
    let params = ir_types(arg_types(args));
    lemma_start_begins(args, params, ir(ret));
    law_lowering_continues(expr, start(args, params, ir(ret)), body_env(args, expr), None);
}

proof fn lemma_start_begins(args: Seq<(&str, Type<'_>)>, params: Seq<IrType>, ret: IrType)
    ensures
        start(args, params, ret).len() > 0,
        start(args, params, ret)[0] == Action::Begin(params, ret),
    decreases args.len(),
{
    if args.len() > 0 {
        lemma_start_begins(args.drop_last(), params, ret);
    }
}

} // verus!
