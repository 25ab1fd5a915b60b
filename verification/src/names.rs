//! The names of data objects.

use vstd::prelude::*;

use crate::ast::{LValue, SExpr, Type};
use crate::env::EnvView;
use crate::function::{arg_types, body_env, lower_function, start};
use crate::ir::{ir_types, IrType};
use crate::lower::{
    cond_blocks, env_after, env_after_all, env_after_arms, env_after_place, ir, lower, lower_all,
    lower_arms, lower_place, lower_text, size,
};
use crate::prefix::{
    continues, law_lowering_continues, lemma_all_continue, lemma_arms_continue,
    lemma_blocks_continue, lemma_place_continues,
};
use crate::step::Action;
use crate::text::{decimal, digit};

verus! {

/// The number that a text of decimal digits reads as.
pub open spec fn reading(s: Seq<char>) -> int
    decreases s.len(),
{
    if s.len() == 0 {
        0
    } else {
        10 * reading(s.drop_last()) + (s.last() as int - '0' as int)
    }
}

/// A number in decimal reads as the number, and does not begin with a zero unless
/// it is zero.
pub proof fn law_decimal_reads_back(n: nat)
    ensures
        reading(decimal(n)) == n,
        decimal(n).len() > 0,
        n > 0 ==> decimal(n)[0] != '0',
        n == 0 ==> decimal(n) == seq!['0'],
    decreases n,
{
    reveal_with_fuel(reading, 2);
    if n < 10 {
        assert(decimal(n).drop_last() =~= Seq::<char>::empty());
        assert(digit(n) as int == '0' as int + n);
        assert(decimal(n) =~= seq![digit(n)]);
        assert(digit(n) == '0' ==> n == 0);
        assert(n == 0 ==> digit(n) == '0');
    } else {
        law_decimal_reads_back(n / 10);
        assert(decimal(n).drop_last() =~= decimal(n / 10));
        assert(digit(n % 10) as int == '0' as int + n % 10);
        assert(decimal(n).last() == digit(n % 10));
    }
}

/// Whether the data objects that are declared from a place on are named by numbers
/// from `lo` up to `hi`, each by a greater one than the one before.
pub open spec fn rising(acts: Seq<Action>, from: int, lo: int, hi: int) -> bool {
    &&& 0 <= from
    &&& lo <= hi
    &&& forall|i: int|
        from <= i < acts.len() && #[trigger] acts[i] is DeclareData ==> lo <= reading(
            acts[i]->DeclareData_0,
        ) < hi
    &&& forall|i: int, j: int|
        from <= i < j < acts.len() && #[trigger] acts[i] is DeclareData
            && #[trigger] acts[j] is DeclareData
            ==> reading(acts[i]->DeclareData_0) < reading(acts[j]->DeclareData_0)
}

broadcast proof fn lemma_still(acts: Seq<Action>, a: Action, from: int, lo: int, hi: int)
    requires
        rising(acts, from, lo, hi),
        !(a is DeclareData),
    ensures
        #[trigger] rising(acts.push(a), from, lo, hi),
{
    let more = acts.push(a);
    assert forall|i: int| from <= i < more.len() && #[trigger] more[i] is DeclareData implies lo
        <= reading(more[i]->DeclareData_0) < hi by {
        assert(more[i] == acts[i]);
    }
    assert forall|i: int, j: int|
        from <= i < j < more.len() && #[trigger] more[i] is DeclareData
            && #[trigger] more[j] is DeclareData
            implies reading(more[i]->DeclareData_0) < reading(more[j]->DeclareData_0) by {
        assert(more[i] == acts[i]);
        assert(more[j] == acts[j]);
    }
}

proof fn lemma_on(
    acts: Seq<Action>,
    more: Seq<Action>,
    from: int,
    lo: int,
    mid: int,
    hi: int,
)
    requires
        continues(acts, more),
        0 <= from <= acts.len(),
        rising(acts, from, lo, mid),
        rising(more, acts.len() as int, mid, hi),
    ensures
        rising(more, from, lo, hi),
{
    assert forall|i: int| from <= i < more.len() && #[trigger] more[i] is DeclareData implies lo
        <= reading(more[i]->DeclareData_0) < hi by {
        if i < acts.len() {
            assert(more[i] == acts[i]);
        }
    }
    assert forall|i: int, j: int|
        from <= i < j < more.len() && #[trigger] more[i] is DeclareData
            && #[trigger] more[j] is DeclareData
            implies reading(more[i]->DeclareData_0) < reading(more[j]->DeclareData_0) by {
        if i < acts.len() {
            assert(more[i] == acts[i]);
        }
        if j < acts.len() {
            assert(more[j] == acts[j]);
        }
    }
}

/// The texts of an expression are named by the numbers that are given out while it
/// is lowered, each by its own.
#[verifier::rlimit(60)]
pub proof fn law_texts_are_numbered(
    e: SExpr<'_>,
    acts: Seq<Action>,
    env: EnvView,
    brk: Option<int>,
)
    ensures
        rising(
            lower(e, acts, env, brk).acts,
            acts.len() as int,
            env.next(),
            env_after(e, env).next(),
        ),
    decreases e,
{
    broadcast use lemma_still;

    let n = acts.len() as int;
    let lo = env.next();
    assert(rising(acts, n, lo, lo));
    match e {
        SExpr::Str { meta, value } => lemma_text_name(ir(meta.type_), value@, env, acts),
        SExpr::Sequence { values, .. } => lemma_all_numbered(values@, acts, env.enter(), brk),
        SExpr::Cond { meta, values, elsy } => {
            let count = values@.len();
            let end = n + 2 * count;
            lemma_blocks_numbered(count, acts, lo);
            let acts1 = cond_blocks(count, acts).push(Action::CreateBlock).push(
                Action::AppendBlockParam(end, ir(meta.type_)),
            );
            assert(rising(acts1, n, lo, lo));
            lemma_blocks_continue(count, acts);
            let acts2 = lower_arms(values@, acts1, env, brk, n, end);
            let env1 = env_after_arms(values@, env);
            lemma_arms_numbered(values@, acts1, env, brk, n, end);
            lemma_arms_continue(values@, acts1, env, brk, n, end);
            lemma_on(acts1, acts2, n, lo, lo, env1.next());
            match elsy {
                Some(e) => {
                    law_texts_are_numbered(*e, acts2, env1.enter(), brk);
                    law_lowering_continues(*e, acts2, env1.enter(), brk);
                    let other = lower(*e, acts2, env1.enter(), brk);
                    lemma_on(
                        acts2,
                        other.acts,
                        n,
                        lo,
                        env1.next(),
                        env_after(*e, env1.enter()).next(),
                    );
                },
                None => {},
            }
        },
        SExpr::Loop { meta, value } => {
            let acts1 = acts.push(Action::CreateBlock).push(Action::CreateBlock).push(
                Action::AppendBlockParam(n + 1, ir(meta.type_)),
            ).push(Action::Jump(n, None)).push(Action::SwitchToBlock(n));
            assert(rising(acts1, n, lo, lo));
            law_texts_are_numbered(*value, acts1, env.enter(), Some(n + 1));
            law_lowering_continues(*value, acts1, env.enter(), Some(n + 1));
            let body = lower(*value, acts1, env.enter(), Some(n + 1));
            lemma_on(acts1, body.acts, n, lo, lo, env_after(*value, env.enter()).next());
        },
        SExpr::Break { value, .. } => match value {
            Some(e) => law_texts_are_numbered(*e, acts, env, brk),
            None => {},
        },
        SExpr::Type { value, .. } => law_texts_are_numbered(*value, acts, env, brk),
        SExpr::FuncCall { values, .. } => {
            lemma_all_numbered(values@, acts, env, brk);
        },
        SExpr::Declare { meta, value, .. } => {
            let acts1 = acts.push(Action::DeclareVar(env.next(), ir(meta.type_)));
            let env1 = env.declare(ir(meta.type_));
            assert(rising(acts1, n, lo, lo));
            assert(rising(acts1, n, lo, env1.next()));
            law_texts_are_numbered(*value, acts1, env1, brk);
            law_lowering_continues(*value, acts1, env1, brk);
            let v = lower(*value, acts1, env1, brk);
            lemma_on(acts1, v.acts, n, lo, env1.next(), env_after(*value, env1).next());
        },
        SExpr::Assign { lvalue, value, .. } => {
            law_texts_are_numbered(*value, acts, env, brk);
            let v = lower(*value, acts, env, brk);
            let env1 = env_after(*value, env);
            law_lowering_continues(*value, acts, env, brk);
            lemma_place_numbered(lvalue, v.acts, env1, brk);
            lemma_place_continues(lvalue, v.acts, env1, brk);
            let p = lower_place(lvalue, v.acts, env1, brk);
            lemma_on(v.acts, p.acts, n, lo, env1.next(), env_after_place(lvalue, env1).next());
        },
        SExpr::Attribute { top, .. } => law_texts_are_numbered(*top, acts, env, brk),
        _ => {},
    }
}

proof fn lemma_text_name(t: IrType, text: Seq<char>, env: EnvView, acts: Seq<Action>)
    ensures
        rising(
            lower_text(t, text, env.next(), acts).acts,
            acts.len() as int,
            env.next(),
            env.next() + 1,
        ),
{
    broadcast use lemma_still;

    law_decimal_reads_back(env.next() as nat);
    let n = acts.len() as int;
    let first = acts.push(Action::DeclareData(decimal(env.next() as nat)));
    assert(rising(first, n, env.next(), env.next() + 1));
}

proof fn lemma_blocks_numbered(count: nat, acts: Seq<Action>, lo: int)
    ensures
        rising(cond_blocks(count, acts), acts.len() as int, lo, lo),
    decreases count,
{
    broadcast use lemma_still;

    if count > 0 {
        lemma_blocks_numbered((count - 1) as nat, acts, lo);
    }
}

proof fn lemma_all_numbered(
    es: Seq<SExpr<'_>>,
    acts: Seq<Action>,
    env: EnvView,
    brk: Option<int>,
)
    ensures
        rising(
            lower_all(es, acts, env, brk).acts,
            acts.len() as int,
            env.next(),
            env_after_all(es, env).next(),
        ),
    decreases es,
{
    if es.len() > 0 {
        let before = lower_all(es.drop_last(), acts, env, brk);
        let env1 = env_after_all(es.drop_last(), env);
        let e = es[es.len() - 1];
        lemma_all_numbered(es.drop_last(), acts, env, brk);
        lemma_all_continue(es.drop_last(), acts, env, brk);
        law_texts_are_numbered(e, before.acts, env1, brk);
        law_lowering_continues(e, before.acts, env1, brk);
        lemma_on(
            before.acts,
            lower(e, before.acts, env1, brk).acts,
            acts.len() as int,
            env.next(),
            env1.next(),
            env_after(e, env1).next(),
        );
    }
}

proof fn lemma_arms_numbered(
    arms: Seq<(SExpr<'_>, SExpr<'_>)>,
    acts: Seq<Action>,
    env: EnvView,
    brk: Option<int>,
    first: int,
    end: int,
)
    ensures
        rising(
            lower_arms(arms, acts, env, brk, first, end),
            acts.len() as int,
            env.next(),
            env_after_arms(arms, env).next(),
        ),
    decreases arms,
{
    broadcast use lemma_still;

    if arms.len() > 0 {
        let n = acts.len() as int;
        let i = arms.len() - 1;
        let (other, then) = (first + 2 * i, first + 2 * i + 1);
        let before = lower_arms(arms.drop_last(), acts, env, brk, first, end);
        lemma_arms_numbered(arms.drop_last(), acts, env, brk, first, end);
        lemma_arms_continue(arms.drop_last(), acts, env, brk, first, end);
        let inner = env_after_arms(arms.drop_last(), env).enter();
        let cond = lower(arms[i].0, before, inner, brk);
        let env2 = env_after(arms[i].0, inner);
        law_texts_are_numbered(arms[i].0, before, inner, brk);
        law_lowering_continues(arms[i].0, before, inner, brk);
        lemma_on(before, cond.acts, n, env.next(), inner.next(), env2.next());
        let acts1 = cond.acts.push(Action::Brz(cond.value, other)).push(
            Action::Jump(then, None),
        ).push(Action::SwitchToBlock(then));
        assert(rising(acts1, n, env.next(), env2.next()));
        let body = lower(arms[i].1, acts1, env2, brk);
        law_texts_are_numbered(arms[i].1, acts1, env2, brk);
        law_lowering_continues(arms[i].1, acts1, env2, brk);
        lemma_on(
            acts1,
            body.acts,
            n,
            env.next(),
            env2.next(),
            env_after(arms[i].1, env2).next(),
        );
    }
}

proof fn lemma_place_numbered(
    place: LValue<'_>,
    acts: Seq<Action>,
    env: EnvView,
    brk: Option<int>,
)
    ensures
        rising(
            lower_place(place, acts, env, brk).acts,
            acts.len() as int,
            env.next(),
            env_after_place(place, env).next(),
        ),
    decreases place,
{
    broadcast use lemma_still;

    let n = acts.len() as int;
    assert(rising(acts, n, env.next(), env.next()));
    match place {
        LValue::Deref(v) => lemma_place_numbered(*v, acts, env, brk),
        LValue::Get(t, v, i) => {
            let index = lower(*i, acts, env, brk);
            let env1 = env_after(*i, env);
            law_texts_are_numbered(*i, acts, env, brk);
            law_lowering_continues(*i, acts, env, brk);
            let acts1 = index.acts.push(Action::ImulImm(index.value, size(t)));
            assert(rising(acts1, n, env.next(), env1.next()));
            lemma_place_numbered(*v, acts1, env1, brk);
            lemma_place_continues(*v, acts1, env1, brk);
            lemma_on(
                acts1,
                lower_place(*v, acts1, env1, brk).acts,
                n,
                env.next(),
                env1.next(),
                env_after_place(*v, env1).next(),
            );
        },
        _ => {},
    }
}

/// Every text of a function has a data object of its own: no two of those that it
/// declares have the same name.
pub proof fn law_texts_have_names_of_their_own(
    args: Seq<(&str, Type<'_>)>,
    ret: Type<'_>,
    expr: SExpr<'_>,
    i: int,
    j: int,
)
    requires
        0 <= i < j < lower_function(args, ret, expr).len(),
        lower_function(args, ret, expr)[i] is DeclareData,
        lower_function(args, ret, expr)[j] is DeclareData,
    ensures
        lower_function(args, ret, expr)[i] != lower_function(args, ret, expr)[j],
{
    broadcast use lemma_still;

    let params = ir_types(arg_types(args));
    let acts = start(args, params, ir(ret));
    let env = body_env(args, expr);
    lemma_start_numbered(args, params, ir(ret));
    law_texts_are_numbered(expr, acts, env, None);
    law_lowering_continues(expr, acts, env, None);
    let body = lower(expr, acts, env, None);
    let hi = env_after(expr, env).next();
    lemma_on(acts, body.acts, 0, env.next(), env.next(), hi);
    let p = lower_function(args, ret, expr);
    assert(rising(p, 0, env.next(), hi));
}

proof fn lemma_start_numbered(args: Seq<(&str, Type<'_>)>, params: Seq<IrType>, ret: IrType)
    ensures
        forall|n: int| rising(start(args, params, ret), 0, n, n),
    decreases args.len(),
{
    assert forall|n: int| rising(start(args, params, ret), 0, n, n) by {
        broadcast use lemma_still;

        if args.len() > 0 {
            lemma_start_numbered(args.drop_last(), params, ret);
            assert(rising(start(args.drop_last(), params, ret), 0, n, n));
        }
    }
}

} // verus!
