//! A plan does what the expression means that it was made from.

use vstd::arithmetic::div_mod::lemma_add_mod_noop_right;
use vstd::prelude::*;
use vstd::utf8::encode_utf8;

use crate::ast::{type_of, LValue, SExpr, Type};
use crate::env::{resolve, EnvView};
use crate::ir::{byte_size, ir_types, IrType};
use crate::linked::{
    bound, kept, lemma_assigned, lemma_back, lemma_declared, lemma_declared_kept, lemma_inner_outer,
    lemma_inside, lemma_kept_here, lemma_kept_trans, lemma_names, lemma_numbers, lemma_outer_kept,
    linked, outer_linked,
};
use crate::lower::{
    binary_op, builtin, cond_blocks, env_after, env_after_all, env_after_arms, env_after_place, ir,
    is_signed, last, lower, lower_all, lower_arms, lower_builtin, lower_call, lower_place,
    lower_text, size, syscall_params, Builtin, Lowered, SLICE_BYTES,
};
use crate::machine::{
    instruction, lemma_here, lemma_join, lemma_target, lemma_then, once, runs, slot, step, target,
    texts_before, Config,
};
use crate::mangle::symbol;
use crate::meaning::{
    address, bytes, contents, element, eval, eval_all, eval_arms, field, literal, lookup, perform,
    reserve, reserve_slice, signed, text, truth, wrap, zero, Choice, Out, Outs, Rt, Val, World,
};
use crate::prefix::{
    continues, law_lowering_continues, lemma_all_continue, lemma_arms_continue,
    lemma_blocks_continue, lemma_place_continues,
};
use crate::step::{Action, BinaryOp, IntCond};
use crate::tally::{
    contains, contains_all, contains_arms, law_lowering_adds, lemma_all_add, lemma_arms_add,
    lemma_blocks_add, lemma_pushes, tally, Tally,
};
use crate::text::decimal;
use crate::translatable::{
    law_scopes_are_kept, lemma_all_kept, lemma_arms_kept, lemma_declare, lemma_enter, sound,
};

verus! {

/// Whether the values of the first places are as they were.
pub open spec fn framed(c: Config, d: Config, n: int) -> bool {
    forall|x: int| 0 <= x < n ==> #[trigger] d.values[x] == c.values[x]
}

/// Whether a machine has left a loop that ends at a block.
pub open spec fn left(
    w: World,
    p: Seq<Action>,
    c: Config,
    d: Config,
    n: int,
    env: EnvView,
    rt: Rt,
    block: int,
    v: Val,
    after: Rt,
) -> bool {
    &&& runs(w, p, c, d)
    &&& d.pc == target(p, block)
    &&& d.params[(block, 0)] == v
    &&& d.mem == after.mem
    &&& framed(c, d, n)
    &&& outer_linked(env, rt, d.vars, after.store)
    &&& rt.next <= after.next
}

/// Whether a machine has done what an expression comes to: it has come to the end
/// of what the expression is lowered to and has its value there, or it has come to
/// the end of the loop around it, with the value of the loop.
pub open spec fn done(
    w: World,
    p: Seq<Action>,
    c: Config,
    d: Config,
    n: int,
    env: EnvView,
    rt: Rt,
    brk: Option<int>,
    low: Lowered,
    env2: EnvView,
    out: Out,
) -> bool {
    match out {
        Out::Gives(v, after) => {
            &&& runs(w, p, c, d)
            &&& d.pc == low.acts.len()
            &&& 0 <= low.value < low.acts.len()
            &&& d.values[low.value] == v
            &&& d.mem == after.mem
            &&& framed(c, d, n)
            &&& linked(env2, after, d.vars)
            &&& kept(env, rt, env2, after)
        },
        Out::Leaves(v, after) => brk is Some ==> left(w, p, c, d, n, env, rt, brk->0, v, after),
        Out::Stops => true,
    }
}

/// The same, of several expressions.
pub open spec fn all_done(
    w: World,
    p: Seq<Action>,
    c: Config,
    d: Config,
    n: int,
    env: EnvView,
    rt: Rt,
    brk: Option<int>,
    acts: Seq<Action>,
    values: Seq<int>,
    env2: EnvView,
    out: Outs,
) -> bool {
    match out {
        Outs::Give(vs, after) => {
            &&& runs(w, p, c, d)
            &&& d.pc == acts.len()
            &&& values.len() == vs.len()
            &&& forall|i: int|
                0 <= i < vs.len() ==> 0 <= #[trigger] values[i] < acts.len() && d.values[values[i]]
                    == vs[i]
            &&& d.mem == after.mem
            &&& framed(c, d, n)
            &&& linked(env2, after, d.vars)
            &&& kept(env, rt, env2, after)
        },
        Outs::Leave(v, after) => brk is Some ==> left(w, p, c, d, n, env, rt, brk->0, v, after),
        Outs::Stop => true,
    }
}

/// Whether a plan holds what was lowered and a machine is where that begins.
pub open spec fn ready(
    p: Seq<Action>,
    seen: Tally,
    acts: Seq<Action>,
    end: Seq<Action>,
    env: EnvView,
    rt: Rt,
    c: Config,
) -> bool {
    &&& continues(end, p)
    &&& once(p)
    &&& sound(env)
    &&& linked(env, rt, c.vars)
    &&& c.mem == rt.mem
    &&& c.pc == acts.len()
    &&& counted(acts, seen)
}

/// Whether a plan has made what was seen.
pub open spec fn counted(acts: Seq<Action>, seen: Tally) -> bool {
    tally(acts, -1).slots == seen.slots && tally(acts, -1).texts == seen.texts
}

/// A literal is as much of its value as its type holds, however the value is handed on.
proof fn lemma_literal(t: Type<'_>, value: u64)
    ensures
        !(t matches Type::Int(_, 1)) ==> wrap(ir(t), (value as i64) as int) == literal(t, value),
{
    assert(value < 0x8000_0000_0000_0000u64 ==> (value as i64) == value) by (bit_vector);
    assert(value >= 0x8000_0000_0000_0000u64 ==> (value as i64) == value
        - 0x1_0000_0000_0000_0000) by (bit_vector);
    let n = value as int;
    assert((n - 0x1_0000_0000_0000_0000) % 0x1_0000_0000_0000_0000 == n % 0x1_0000_0000_0000_0000);
    assert((n - 0x1_0000_0000_0000_0000) % 0x1_0000_0000 == n % 0x1_0000_0000);
    assert((n - 0x1_0000_0000_0000_0000) % 0x1_0000 == n % 0x1_0000);
    assert((n - 0x1_0000_0000_0000_0000) % 0x100 == n % 0x100);
    assert((n - 0x1_0000_0000_0000_0000) % 2 == n % 2);
}

/// The size of an element is the number of bytes that hold its bits.
proof fn lemma_bytes(t: Type<'_>)
    requires
        byte_size(t) is Some,
    ensures
        size(t) == bytes(t),
{
}

/// Whether a type is signed does not hang on how that is said.
proof fn lemma_signed(t: Type<'_>)
    ensures
        is_signed(t) <==> signed(t),
{
    if is_signed(t) {
        let bits = t->Int_1;
        assert(t == Type::Int(true, bits));
    }
}

/// Several expressions, one after the other.
proof fn lemma_all(
    w: World,
    es: Seq<SExpr<'_>>,
    seen: Tally,
    acts: Seq<Action>,
    env: EnvView,
    brk: Option<int>,
    p: Seq<Action>,
    rt: Rt,
    c: Config,
    fuel: nat,
) -> (d: Config)
    requires
        ready(p, seen, acts, lower_all(es, acts, env, brk).acts, env, rt, c),
    ensures
        all_done(
            w,
            p,
            c,
            d,
            acts.len() as int,
            env,
            rt,
            brk,
            lower_all(es, acts, env, brk).acts,
            lower_all(es, acts, env, brk).values,
            env_after_all(es, env),
            eval_all(w, es, seen, rt, fuel),
        ),
    decreases fuel, es, 0nat,
{
    if es.len() == 0 {
        lemma_here(w, p, c);
        c
    } else {
        let before = lower_all(es.drop_last(), acts, env, brk);
        let env1 = env_after_all(es.drop_last(), env);
        let e = es[es.len() - 1];
        let seen1 = seen.plus(contains_all(es.drop_last()));
        lemma_all_add(es.drop_last(), acts, env, brk, -1);
        let v = lower(e, before.acts, env1, brk);
        law_lowering_continues(e, before.acts, env1, brk);
        lemma_all_continue(es.drop_last(), acts, env, brk);
        assert(continues(before.acts, p));
        let d = lemma_all(w, es.drop_last(), seen, acts, env, brk, p, rt, c, fuel);
        match eval_all(w, es.drop_last(), seen, rt, fuel) {
            Outs::Give(vs, after) => {
                lemma_all_kept(es.drop_last(), env);
                let f = law_lowered_does_what_is_meant(
                    w,
                    e,
                    seen1,
                    before.acts,
                    env1,
                    brk,
                    p,
                    after,
                    d,
                    fuel,
                );
                match eval(w, e, seen1, after, fuel) {
                    Out::Gives(x, last) => {
                        lemma_join(w, p, c, d, f);
                        lemma_kept_trans(env, rt, env1, after, env_after(e, env1), last);
                        let values = before.values.push(v.value);
                        assert forall|i: int| 0 <= i < values.len() implies 0
                            <= #[trigger] values[i] < v.acts.len() && f.values[values[i]]
                            == vs.push(x)[i] by {
                            if i < vs.len() {
                                assert(before.values[i] == values[i]);
                                assert(f.values[values[i]] == d.values[values[i]]);
                            }
                        }
                    },
                    Out::Leaves(x, last) => {
                        if brk is Some {
                            lemma_join(w, p, c, d, f);
                            lemma_outer_kept(env, rt, env1, after, f.vars, last.store);
                        }
                    },
                    Out::Stops => {},
                }
                f
            },
            _ => d,
        }
    }
}

/// A loop ends at its own end, with the value of the break that is met in it.
proof fn lemma_loop(
    w: World,
    e: SExpr<'_>,
    seen: Tally,
    acts: Seq<Action>,
    env: EnvView,
    brk: Option<int>,
    p: Seq<Action>,
    rt: Rt,
    c: Config,
    fuel: nat,
) -> (d: Config)
    requires
        e is Loop,
        continues(lower(e, acts, env, brk).acts, p),
        once(p),
        sound(env),
        linked(env, rt, c.vars),
        c.mem == rt.mem,
        c.pc == acts.len() + 4,
        counted(acts, seen),
    ensures
        done(
            w,
            p,
            c,
            d,
            acts.len() as int,
            env,
            rt,
            brk,
            lower(e, acts, env, brk),
            env_after(e, env),
            eval(w, e, seen, rt, fuel),
        ),
    decreases fuel, e, 0nat,
{
    let n = acts.len() as int;
    let low = lower(e, acts, env, brk);
    match e {
        SExpr::Loop { meta, value } => {
            let acts1 = acts.push(Action::CreateBlock).push(Action::CreateBlock).push(
                Action::AppendBlockParam(n + 1, ir(meta.type_)),
            ).push(Action::Jump(n, None)).push(Action::SwitchToBlock(n));
            let body = lower(*value, acts1, env.enter(), Some(n + 1));
            law_lowering_continues(*value, acts1, env.enter(), Some(n + 1));
            let m = body.acts.len() as int;
            assert(counted(acts1, seen)) by {
                broadcast use lemma_pushes;

            }
            assert(acts1[n + 4] == Action::SwitchToBlock(n));
            assert(body.acts[n + 4] == acts1[n + 4]);
            assert(low.acts[n + 4] == body.acts[n + 4]);
            assert(p[n + 4] == Action::SwitchToBlock(n));
            assert(p[m] == Action::Jump(n, None));
            assert(p[m + 1] == Action::SwitchToBlock(n + 1));
            assert(p[m + 2] == Action::BlockParam(n + 1, 0));
            lemma_target(p, n, n + 4);
            lemma_target(p, n + 1, m + 1);
            assert(continues(body.acts, p));
            let c1 = c.on();
            lemma_here(w, p, c);
            lemma_then(w, p, c, c, c1);
            lemma_enter(env);
            lemma_inside(env, rt, c.vars);
            law_scopes_are_kept(*value, env.enter());
            let inner = env_after(*value, env.enter());
            assert(inner.leave().scopes =~= env.scopes) by {
                assert(env.enter().scopes.drop_last() =~= env.scopes);
            }
            let d = law_lowered_does_what_is_meant(
                w,
                *value,
                seen,
                acts1,
                env.enter(),
                Some(n + 1),
                p,
                rt.inside(),
                c1,
                fuel,
            );
            match eval(w, *value, seen, rt.inside(), fuel) {
                Out::Leaves(v, after) => {
                    lemma_join(w, p, c, c1, d);
                    let d1 = d.on();
                    let d2 = d1.put(v);
                    lemma_then(w, p, c, d, d1);
                    lemma_then(w, p, c, d1, d2);
                    lemma_back(env, rt, c.vars, inner.leave(), after, d.vars);
                    assert(framed(c, d2, n));
                    d2
                },
                Out::Gives(v, after) => {
                    if fuel > 0 {
                        lemma_join(w, p, c, c1, d);
                        let d1 = d.at(n + 4);
                        lemma_then(w, p, c, d, d1);
                        lemma_inner_outer(env.enter(), rt.inside(), inner, after, d.vars);
                        lemma_back(env, rt, c.vars, env, after, d.vars);
                        let again = after.back(rt);
                        let f = lemma_loop(
                            w,
                            e,
                            seen,
                            acts,
                            env,
                            brk,
                            p,
                            again,
                            d1,
                            (fuel - 1) as nat,
                        );
                        match eval(w, e, seen, again, (fuel - 1) as nat) {
                            Out::Gives(x, last) => {
                                lemma_join(w, p, c, d1, f);
                                lemma_kept_trans(env, rt, env, again, env_after(e, env), last);
                                assert(framed(c, f, n));
                            },
                            Out::Leaves(x, last) => {
                                if brk is Some {
                                    lemma_join(w, p, c, d1, f);
                                    lemma_outer_kept(env, rt, env, again, f.vars, last.store);
                                }
                            },
                            Out::Stops => {},
                        }
                        f
                    } else {
                        d
                    }
                },
                Out::Stops => d,
            }
        },
        _ => c,
    }
}

/// The blocks of a condition are made and that is all.
proof fn lemma_blocks(
    w: World,
    count: nat,
    acts: Seq<Action>,
    p: Seq<Action>,
    c: Config,
)
    requires
        continues(cond_blocks(count, acts), p),
        c.pc == acts.len(),
    ensures
        runs(w, p, c, c.at(acts.len() as int + 2 * count)),
        cond_blocks(count, acts).len() == acts.len() + 2 * count,
    decreases count,
{
    let n = acts.len() as int;
    if count == 0 {
        lemma_here(w, p, c);
        assert(c == c.at(n));
    } else {
        let m = (count - 1) as nat;
        let before = cond_blocks(m, acts);
        assert(continues(before, p));
        lemma_blocks(w, m, acts, p, c);
        let d = c.at(n + 2 * m);
        assert(p[n + 2 * m] == Action::CreateBlock);
        assert(p[n + 2 * m + 1] == Action::CreateBlock);
        lemma_then(w, p, c, d, d.on());
        lemma_then(w, p, c, d.on(), d.on().on());
        assert(d.on().on() == c.at(n + 2 * count));
    }
}

/// Whether a machine has done what some conditions and their bodies come to: it
/// has come to their end, if none of them held, and otherwise to the block that all
/// of them end at, or to the end of the loop around them.
pub open spec fn arms_done(
    w: World,
    p: Seq<Action>,
    c: Config,
    d: Config,
    n: int,
    env: EnvView,
    rt: Rt,
    brk: Option<int>,
    end: int,
    acts: Seq<Action>,
    env2: EnvView,
    choice: Choice,
) -> bool {
    match choice {
        Choice::Open(after) => {
            &&& runs(w, p, c, d)
            &&& d.pc == acts.len()
            &&& d.mem == after.mem
            &&& framed(c, d, n)
            &&& after.scopes == rt.scopes
            &&& linked(env2, after, d.vars)
            &&& kept(env, rt, env2, after)
        },
        Choice::Taken(Out::Gives(v, after)) => left(
            w,
            p,
            c,
            d,
            n,
            env.enter(),
            rt.inside(),
            end,
            v,
            after,
        ),
        Choice::Taken(Out::Leaves(v, after)) => brk is Some ==> left(
            w,
            p,
            c,
            d,
            n,
            env.enter(),
            rt.inside(),
            brk->0,
            v,
            after,
        ),
        Choice::Taken(Out::Stops) => true,
    }
}

/// Conditions and their bodies: the body of the first condition that holds is done.
#[verifier::rlimit(60)]
proof fn lemma_arms(
    w: World,
    arms: Seq<(SExpr<'_>, SExpr<'_>)>,
    seen: Tally,
    acts: Seq<Action>,
    env: EnvView,
    brk: Option<int>,
    first: int,
    end: int,
    p: Seq<Action>,
    rt: Rt,
    c: Config,
    fuel: nat,
) -> (d: Config)
    requires
        ready(p, seen, acts, lower_arms(arms, acts, env, brk, first, end), env, rt, c),
        end >= 0,
    ensures
        arms_done(
            w,
            p,
            c,
            d,
            acts.len() as int,
            env,
            rt,
            brk,
            end,
            lower_arms(arms, acts, env, brk, first, end),
            env_after_arms(arms, env),
            eval_arms(w, arms, seen, rt, fuel),
        ),
    decreases fuel, arms, 0nat,
{
    let n = acts.len() as int;
    if arms.len() == 0 {
        lemma_here(w, p, c);
        c
    } else {
        let i = arms.len() - 1;
        let (other, then) = (first + 2 * i, first + 2 * i + 1);
        let before = lower_arms(arms.drop_last(), acts, env, brk, first, end);
        let env1 = env_after_arms(arms.drop_last(), env);
        let inner = env1.enter();
        let cond = lower(arms[i].0, before, inner, brk);
        let acts1 = cond.acts.push(Action::Brz(cond.value, other)).push(
            Action::Jump(then, None),
        ).push(Action::SwitchToBlock(then));
        let env2 = env_after(arms[i].0, inner);
        let body = lower(arms[i].1, acts1, env2, brk);
        let (k, m) = (cond.acts.len() as int, body.acts.len() as int);
        let seen1 = seen.plus(contains_arms(arms.drop_last()));
        let seen2 = seen1.plus(contains(arms[i].0));
        lemma_arms_add(arms.drop_last(), acts, env, brk, first, end, -1);
        law_lowering_adds(arms[i].0, before, inner, brk, -1);
        assert(counted(before, seen1));
        assert(counted(acts1, seen2)) by {
            broadcast use lemma_pushes;

        }
        law_lowering_continues(arms[i].0, before, inner, brk);
        law_lowering_continues(arms[i].1, acts1, env2, brk);
        lemma_arms_continue(arms.drop_last(), acts, env, brk, first, end);
        assert(continues(body.acts, p));
        assert(continues(acts1, p));
        assert(continues(cond.acts, p));
        assert(continues(before, p));
        assert(p[k] == Action::Brz(cond.value, other)) by {
            assert(acts1[k] == p[k]);
        }
        assert(p[k + 1] == Action::Jump(then, None)) by {
            assert(acts1[k + 1] == p[k + 1]);
        }
        assert(p[k + 2] == Action::SwitchToBlock(then)) by {
            assert(acts1[k + 2] == p[k + 2]);
        }
        assert(p[m] == Action::Jump(end, Some(body.value)));
        assert(p[m + 1] == Action::SwitchToBlock(other));
        lemma_target(p, then, k + 2);
        lemma_target(p, other, m + 1);
        let d = lemma_arms(w, arms.drop_last(), seen, acts, env, brk, first, end, p, rt, c, fuel);
        match eval_arms(w, arms.drop_last(), seen, rt, fuel) {
            Choice::Open(after) => {
                lemma_arms_kept(arms.drop_last(), env);
                lemma_enter(env1);
                lemma_inside(env1, after, d.vars);
                law_scopes_are_kept(arms[i].0, inner);
                law_scopes_are_kept(arms[i].1, env2);
                lemma_arm_scopes(arms.drop_last(), env);
                let env3 = env_after(arms[i].1, env2).leave();
                assert(env3.scopes =~= env1.scopes) by {
                    assert(inner.scopes.drop_last() =~= env1.scopes);
                }
                let f = law_lowered_does_what_is_meant(
                    w,
                    arms[i].0,
                    seen1,
                    before,
                    inner,
                    brk,
                    p,
                    after.inside(),
                    d,
                    fuel,
                );
                assert(inner.scopes == env.enter().scopes);
                assert(after.inside().scopes == rt.inside().scopes);
                match eval(w, arms[i].0, seen1, after.inside(), fuel) {
                    Out::Gives(v, after2) => {
                        lemma_join(w, p, c, d, f);
                        if v.bits == 0 {
                            let f1 = f.at(m + 1);
                            lemma_then(w, p, c, f, f1);
                            let f2 = f1.on();
                            lemma_then(w, p, c, f1, f2);
                            lemma_inner_outer(inner, after.inside(), env2, after2, f.vars);
                            lemma_back(env1, after, d.vars, env3, after2, f.vars);
                            lemma_kept_trans(env, rt, env1, after, env3, after2.back(after));
                            assert(framed(c, f2, n));
                            f2
                        } else {
                            let f1 = f.on();
                            lemma_then(w, p, c, f, f1);
                            let f2 = f1.at(k + 2);
                            lemma_then(w, p, c, f1, f2);
                            let f3 = f2.on();
                            lemma_then(w, p, c, f2, f3);
                            let g = law_lowered_does_what_is_meant(
                                w,
                                arms[i].1,
                                seen2,
                                acts1,
                                env2,
                                brk,
                                p,
                                after2,
                                f3,
                                fuel,
                            );
                            match eval(w, arms[i].1, seen2, after2, fuel) {
                                Out::Gives(x, last) => {
                                    lemma_join(w, p, c, f3, g);
                                    let g1 = g.hand(end, x).at(target(p, end));
                                    lemma_then(w, p, c, g, g1);
                                    lemma_inner_outer(
                                        env2,
                                        after2,
                                        env_after(arms[i].1, env2),
                                        last,
                                        g.vars,
                                    );
                                    lemma_outer_kept(
                                        inner,
                                        after.inside(),
                                        env2,
                                        after2,
                                        g.vars,
                                        last.store,
                                    );
                                    assert(framed(c, g1, n));
                                    g1
                                },
                                Out::Leaves(x, last) => {
                                    if brk is Some {
                                        lemma_join(w, p, c, f3, g);
                                        lemma_outer_kept(
                                            inner,
                                            after.inside(),
                                            env2,
                                            after2,
                                            g.vars,
                                            last.store,
                                        );
                                        assert(framed(c, g, n));
                                    }
                                    g
                                },
                                Out::Stops => g,
                            }
                        }
                    },
                    Out::Leaves(v, after2) => {
                        if brk is Some {
                            lemma_join(w, p, c, d, f);
                            assert(framed(c, f, n));
                        }
                        f
                    },
                    Out::Stops => f,
                }
            },
            _ => d,
        }
    }
}

/// Conditions and their bodies leave the scopes as they were.
proof fn lemma_arm_scopes(arms: Seq<(SExpr<'_>, SExpr<'_>)>, env: EnvView)
    requires
        sound(env),
    ensures
        env_after_arms(arms, env).scopes == env.scopes,
    decreases arms.len(),
{
    if arms.len() > 0 {
        lemma_arm_scopes(arms.drop_last(), env);
        lemma_arms_kept(arms.drop_last(), env);
        let env1 = env_after_arms(arms.drop_last(), env);
        lemma_enter(env1);
        law_scopes_are_kept(arms[arms.len() - 1].0, env1.enter());
        let env2 = env_after(arms[arms.len() - 1].0, env1.enter());
        law_scopes_are_kept(arms[arms.len() - 1].1, env2);
        assert(env1.enter().scopes.drop_last() =~= env1.scopes);
    }
}

/// The address of a place that is not a variable.
#[verifier::rlimit(60)]
proof fn lemma_place(
    w: World,
    place: LValue<'_>,
    seen: Tally,
    acts: Seq<Action>,
    env: EnvView,
    brk: Option<int>,
    p: Seq<Action>,
    rt: Rt,
    c: Config,
    fuel: nat,
) -> (d: Config)
    requires
        ready(p, seen, acts, lower_place(place, acts, env, brk).acts, env, rt, c),
    ensures
        done(
            w,
            p,
            c,
            d,
            acts.len() as int,
            env,
            rt,
            brk,
            lower_place(place, acts, env, brk),
            env_after_place(place, env),
            address(w, place, seen, rt, fuel),
        ),
    decreases fuel, place, 0nat,
{
    let n = acts.len() as int;
    match place {
        LValue::Deref(v) => lemma_contents(w, *v, seen, acts, env, brk, p, rt, c, fuel),
        LValue::Get(t, v, i) => {
            let low = lower_place(place, acts, env, brk);
            let index = lower(*i, acts, env, brk);
            let k = index.acts.len() as int;
            let acts1 = index.acts.push(Action::ImulImm(index.value, size(t)));
            let env1 = env_after(*i, env);
            let seen1 = seen.plus(contains(*i));
            law_lowering_adds(*i, acts, env, brk, -1);
            assert(counted(acts1, seen1)) by {
                broadcast use lemma_pushes;

            }
            let slice = lower_contents(*v, acts1, env1, brk);
            let m = slice.acts.len() as int;
            law_lowering_continues(*i, acts, env, brk);
            lemma_place_continues(*v, acts1, env1, brk);
            assert(continues(acts1, slice.acts));
            assert(continues(slice.acts, p));
            assert(continues(acts1, p));
            assert(continues(index.acts, p));
            assert(p[k] == Action::ImulImm(index.value, size(t))) by {
                assert(acts1[k] == p[k]);
            }
            assert(p[m] == Action::Load(IrType::I64, slice.value, 8));
            assert(p[m + 1] == Action::Binary(BinaryOp::Iadd, m, k));
            let d = law_lowered_does_what_is_meant(w, *i, seen, acts, env, brk, p, rt, c, fuel);
            match eval(w, *i, seen, rt, fuel) {
                Out::Gives(x, after) => {
                    law_scopes_are_kept(*i, env);
                    let o = wrap(x.t, x.bits * size(t));
                    let d1 = d.put(o);
                    lemma_then(w, p, c, d, d1);
                    let f = lemma_contents(w, *v, seen1, acts1, env1, brk, p, after, d1, fuel);
                    match contents(w, *v, seen1, after, fuel) {
                        Out::Gives(s, last) => {
                            lemma_join(w, p, c, d1, f);
                            lemma_kept_trans(env, rt, env1, after, env_after_place(*v, env1), last);
                            if x.t is I64 && byte_size(t) is Some {
                                lemma_bytes(t);
                                let b = Val {
                                    t: IrType::I64,
                                    bits: (w.load)(last.mem, IrType::I64, s.bits + 8),
                                };
                                let f1 = f.put(b);
                                lemma_then(w, p, c, f, f1);
                                assert(f.values[k] == d1.values[k]);
                                assert(f1.values[k] == o);
                                let r = element(w, t, s, x, last.mem);
                                assert(instruction(w, BinaryOp::Iadd, b, o) == Some(r)) by {
                                    lemma_add_mod_noop_right(
                                        b.bits,
                                        x.bits * bytes(t),
                                        0x1_0000_0000_0000_0000,
                                    );
                                }
                                let f2 = f1.put(r);
                                lemma_then(w, p, c, f1, f2);
                                assert(framed(c, f2, n));
                                f2
                            } else {
                                f
                            }
                        },
                        Out::Leaves(v, last) => {
                            if brk is Some {
                                lemma_join(w, p, c, d1, f);
                                lemma_outer_kept(env, rt, env1, after, f.vars, last.store);
                                assert(framed(c, f, n));
                            }
                            f
                        },
                        Out::Stops => f,
                    }
                },
                _ => d,
            }
        },
        _ => c,
    }
}

/// What the contents of a place are lowered to, that holds a pointer or a slice.
pub open spec fn lower_contents(
    place: LValue<'_>,
    acts: Seq<Action>,
    env: EnvView,
    brk: Option<int>,
) -> Lowered {
    let p = lower_place(place, acts, env, brk);
    if place is Symbol {
        p
    } else {
        last(p.acts, Action::Load(IrType::I64, p.value, 0))
    }
}

/// The contents of a place.
proof fn lemma_contents(
    w: World,
    place: LValue<'_>,
    seen: Tally,
    acts: Seq<Action>,
    env: EnvView,
    brk: Option<int>,
    p: Seq<Action>,
    rt: Rt,
    c: Config,
    fuel: nat,
) -> (d: Config)
    requires
        ready(p, seen, acts, lower_contents(place, acts, env, brk).acts, env, rt, c),
    ensures
        done(
            w,
            p,
            c,
            d,
            acts.len() as int,
            env,
            rt,
            brk,
            lower_contents(place, acts, env, brk),
            env_after_place(place, env),
            contents(w, place, seen, rt, fuel),
        ),
    decreases fuel, place, 1nat,
{
    let n = acts.len() as int;
    match place {
        LValue::Symbol(name) => {
            lemma_names(env, rt, c.vars, name@);
            lemma_here(w, p, c);
            let v = resolve(env.scopes, name@);
            if v is Some {
                assert(p[n] == Action::UseVar(v->0));
                let d = c.put(c.vars[v->0]);
                lemma_then(w, p, c, c, d);
                d
            } else {
                c
            }
        },
        _ => {
            let at = lower_place(place, acts, env, brk);
            assert(continues(at.acts, p));
            assert(p[at.acts.len() as int] == Action::Load(IrType::I64, at.value, 0));
            lemma_place_continues(place, acts, env, brk);
            let d = lemma_place(w, place, seen, acts, env, brk, p, rt, c, fuel);
            match address(w, place, seen, rt, fuel) {
                Out::Gives(x, after) => {
                    let d1 = d.put(
                        Val {
                            t: IrType::I64,
                            bits: (w.load)(after.mem, IrType::I64, x.bits),
                        },
                    );
                    lemma_then(w, p, c, d, d1);
                    assert(framed(c, d1, n));
                    d1
                },
                _ => d,
            }
        },
    }
}

/// Whether a machine has done what a call comes to, once its arguments are there.
pub open spec fn performed(
    w: World,
    p: Seq<Action>,
    c: Config,
    d: Config,
    rt: Rt,
    low: Lowered,
    out: Out,
) -> bool {
    match out {
        Out::Gives(v, after) => {
            &&& runs(w, p, c, d)
            &&& d.pc == low.acts.len()
            &&& 0 <= low.value < low.acts.len()
            &&& d.values[low.value] == v
            &&& d.mem == after.mem
            &&& d.vars == c.vars
            &&& framed(c, d, c.pc)
            &&& after == rt.with(after.mem)
        },
        Out::Leaves(..) => false,
        Out::Stops => true,
    }
}

/// To reserve something on the stack.
#[verifier::rlimit(60)]
proof fn lemma_reserved(
    w: World,
    slots: int,
    t: Type<'_>,
    callee: Type<'_>,
    arg: Type<'_>,
    acts: Seq<Action>,
    args: Seq<int>,
    vs: Seq<Val>,
    p: Seq<Action>,
    rt: Rt,
    c: Config,
) -> (d: Config)
    requires
        continues(lower_builtin(Builtin::Alloca, t, arg, acts, args).acts, p),
        tally(acts, -1).slots == slots,
        c.pc == acts.len(),
        c.mem == rt.mem,
        args.len() == vs.len(),
        forall|i: int|
            0 <= i < vs.len() ==> 0 <= #[trigger] args[i] < acts.len() && c.values[args[i]]
                == vs[i],
    ensures
        performed(
            w,
            p,
            c,
            d,
            rt,
            lower_builtin(Builtin::Alloca, t, arg, acts, args),
            match t {
                Type::Pointer(_, v) => reserve(w, slots, t, *v, rt),
                Type::Slice(_, v) => if vs.len() == 0 {
                    Out::Stops
                } else {
                    reserve_slice(w, slots, t, *v, vs[0], rt)
                },
                _ => Out::Stops,
            },
        ),
{
    let n = acts.len() as int;
    let low = lower_builtin(Builtin::Alloca, t, arg, acts, args);
    lemma_here(w, p, c);
    assert(rt.with(rt.mem) == rt);
    match t {
        Type::Pointer(_, v) => if byte_size(*v) is Some {
            lemma_bytes(*v);
            assert(p[n] == Action::CreateStackSlot(byte_size(*v)->0));
            assert(p[n + 1] == Action::StackAddr(ir(t), n, 0));
            assert(p.take(n) =~= acts);
            assert(slot(w, p, n) == (w.slot)(slots, bytes(*v)));
            let d = c.on().put(Val { t: ir(t), bits: slot(w, p, n) });
            lemma_then(w, p, c, c, c.on());
            lemma_then(w, p, c, c.on(), d);
            d
        } else {
            c
        },
        Type::Slice(_, v) => if vs.len() > 0 && reserve_slice(w, slots, t, *v, vs[0], rt) is Gives {
            lemma_bytes(*v);
            let x = vs[0];
            let k = args[0];
            assert(c.values[k] == x);
            let acts3 = acts.push(Action::ImulImm(k, size(*v))).push(
                Action::CompareIntImm(IntCond::UnsignedLessThanOrEqual, n, SLICE_BYTES as i64),
            ).push(Action::TrapzStackOverflow(n + 1));
            let acts5 = acts3.push(Action::CreateStackSlot(SLICE_BYTES)).push(
                Action::StackAddr(ir(t), n + 3, 0),
            );
            assert(low.acts.take(n + 3) =~= acts3);
            assert(low.acts.take(n + 5) =~= acts5);
            assert(p.take(n + 3) =~= acts3) by {
                assert forall|i: int| 0 <= i < n + 3 implies p[i] == acts3[i] by {
                    assert(low.acts.take(n + 3)[i] == low.acts[i]);
                }
            }
            assert(p.take(n + 5) =~= acts5) by {
                assert forall|i: int| 0 <= i < n + 5 implies p[i] == acts5[i] by {
                    assert(low.acts.take(n + 5)[i] == low.acts[i]);
                }
            }
            assert(tally(acts3, -1).slots == slots && tally(acts5, -1).slots == slots + 1) by {
                broadcast use lemma_pushes;

            }
            assert(p[n] == Action::ImulImm(k, size(*v)));
            assert(p[n + 1] == Action::CompareIntImm(
                IntCond::UnsignedLessThanOrEqual,
                n,
                SLICE_BYTES as i64,
            ));
            assert(p[n + 2] == Action::TrapzStackOverflow(n + 1));
            assert(p[n + 3] == Action::CreateStackSlot(SLICE_BYTES));
            assert(p[n + 4] == Action::StackAddr(ir(t), n + 3, 0));
            assert(p[n + 5] == Action::CreateStackSlot(16));
            assert(p[n + 6] == Action::StackStore(k, n + 5, 0));
            assert(p[n + 7] == Action::StackStore(n + 4, n + 5, 8));
            assert(p[n + 8] == Action::StackAddr(ir(t), n + 5, 0));
            assert(slot(w, p, n + 3) == (w.slot)(slots, 512));
            assert(slot(w, p, n + 5) == (w.slot)(slots + 1, 16));
            let at = Val { t: ir(t), bits: (w.slot)(slots, 512) };
            let slice = (w.slot)(slots + 1, 16);
            let c1 = c.put(wrap(x.t, x.bits * size(*v)));
            let c2 = c1.put(truth(true));
            let c3 = c2.on();
            let c4 = c3.on();
            let c5 = c4.put(at);
            let c6 = c5.on();
            let mem = (w.store)(c.mem, x.t, slice, x.bits);
            let c7 = Config { mem, ..c6 }.on();
            let mem2 = (w.store)(mem, at.t, slice + 8, at.bits);
            let c8 = Config { mem: mem2, ..c7 }.on();
            let c9 = c8.put(Val { t: ir(t), bits: slice });
            lemma_then(w, p, c, c, c1);
            assert(wrap(x.t, SLICE_BYTES as i64 as int).bits == 512);
            lemma_then(w, p, c, c1, c2);
            lemma_then(w, p, c, c2, c3);
            lemma_then(w, p, c, c3, c4);
            lemma_then(w, p, c, c4, c5);
            lemma_then(w, p, c, c5, c6);
            assert(c6.values[k] == x);
            lemma_then(w, p, c, c6, c7);
            assert(c7.values[n + 4] == at);
            lemma_then(w, p, c, c7, c8);
            lemma_then(w, p, c, c8, c9);
            c9
        } else {
            c
        },
        _ => c,
    }
}

/// A text is a slice of its bytes.
#[verifier::rlimit(60)]
proof fn lemma_text_runs(
    w: World,
    seen: Tally,
    t: Type<'_>,
    value: Seq<char>,
    number: int,
    acts: Seq<Action>,
    p: Seq<Action>,
    rt: Rt,
    c: Config,
) -> (d: Config)
    requires
        continues(lower_text(ir(t), value, number, acts).acts, p),
        counted(acts, seen),
        c.pc == acts.len(),
        c.mem == rt.mem,
    ensures
        performed(
            w,
            p,
            c,
            d,
            rt,
            lower_text(ir(t), value, number, acts),
            text(w, seen, t, value, rt),
        ),
{
    let n = acts.len() as int;
    let low = lower_text(ir(t), value, number, acts);
    let bytes = encode_utf8(value);
    lemma_here(w, p, c);
    if bytes.len() < 0x8000_0000_0000_0000 {
        let acts5 = acts.push(Action::DeclareData(decimal(number as nat))).push(
            Action::DefineData(n, bytes),
        ).push(Action::ImportData(n)).push(Action::Iconst(IrType::I64, bytes.len() as i64)).push(
            Action::GlobalValue(ir(t), n + 2),
        );
        assert(low.acts.take(n + 5) =~= acts5);
        assert(p.take(n + 5) =~= acts5) by {
            assert forall|i: int| 0 <= i < n + 5 implies p[i] == acts5[i] by {
                assert(low.acts.take(n + 5)[i] == low.acts[i]);
            }
        }
        assert(p.take(n) =~= acts);
        assert(tally(acts5, -1).slots == seen.slots) by {
            broadcast use lemma_pushes;

        }
        assert(p[n] == Action::DeclareData(decimal(number as nat)));
        assert(p[n + 1] == Action::DefineData(n, bytes));
        assert(p[n + 2] == Action::ImportData(n));
        assert(p[n + 3] == Action::Iconst(IrType::I64, bytes.len() as i64));
        assert(p[n + 4] == Action::GlobalValue(ir(t), n + 2));
        assert(p[n + 5] == Action::CreateStackSlot(16));
        assert(p[n + 6] == Action::StackStore(n + 3, n + 5, 0));
        assert(p[n + 7] == Action::StackStore(n + 4, n + 5, 8));
        assert(p[n + 8] == Action::StackAddr(ir(t), n + 5, 0));
        let len = Val { t: IrType::I64, bits: bytes.len() as int };
        let at = Val { t: ir(t), bits: (w.text)(seen.texts, bytes) };
        let slice = (w.slot)(seen.slots, 16);
        assert(slot(w, p, n + 5) == slice);
        assert(texts_before(p, n) == seen.texts);
        let c3 = c.on().on().on();
        let c4 = c3.put(len);
        let c5 = c4.put(at);
        let c6 = c5.on();
        let mem = (w.store)(c.mem, len.t, slice, len.bits);
        let c7 = Config { mem, ..c6 }.on();
        let mem2 = (w.store)(mem, at.t, slice + 8, at.bits);
        let c8 = Config { mem: mem2, ..c7 }.on();
        let c9 = c8.put(Val { t: ir(t), bits: slice });
        lemma_then(w, p, c, c, c.on());
        lemma_then(w, p, c, c.on(), c.on().on());
        lemma_then(w, p, c, c.on().on(), c3);
        assert(wrap(IrType::I64, bytes.len() as i64 as int) == len);
        lemma_then(w, p, c, c3, c4);
        lemma_then(w, p, c, c4, c5);
        lemma_then(w, p, c, c5, c6);
        assert(c6.values[n + 3] == len);
        lemma_then(w, p, c, c6, c7);
        assert(c7.values[n + 4] == at);
        lemma_then(w, p, c, c7, c8);
        lemma_then(w, p, c, c8, c9);
        c9
    } else {
        c
    }
}

/// A call of a built-in function.
#[verifier::rlimit(60)]
proof fn lemma_builtin(
    w: World,
    slots: int,
    t: Type<'_>,
    callee: Type<'_>,
    name: Seq<char>,
    arg: Type<'_>,
    acts: Seq<Action>,
    args: Seq<int>,
    vs: Seq<Val>,
    p: Seq<Action>,
    rt: Rt,
    c: Config,
) -> (d: Config)
    requires
        builtin(name) is Some,
        continues(lower_builtin(builtin(name)->0, t, arg, acts, args).acts, p),
        tally(acts, -1).slots == slots,
        c.pc == acts.len(),
        c.mem == rt.mem,
        args.len() == vs.len(),
        forall|i: int|
            0 <= i < vs.len() ==> 0 <= #[trigger] args[i] < acts.len() && c.values[args[i]]
                == vs[i],
    ensures
        performed(
            w,
            p,
            c,
            d,
            rt,
            lower_builtin(builtin(name)->0, t, arg, acts, args),
            perform(w, slots, t, callee, name, vs, rt),
        ),
{
    let n = acts.len() as int;
    let op = builtin(name)->0;
    let low = lower_builtin(op, t, arg, acts, args);
    let out = perform(w, slots, t, callee, name, vs, rt);
    lemma_here(w, p, c);
    lemma_signed(t);
    assert(rt.with(rt.mem) == rt);
    match op {
        Builtin::Cast => c,
        Builtin::Syscall => {
            assert(p[n] == Action::DeclareFunction("syscall_"@, syscall_params(), IrType::I64));
            assert(p[n + 1] == Action::ImportFunction(n, IrType::I64));
            assert(p[n + 2] == Action::Call(n + 1, args));
            assert(p[n + 3] == Action::InstResult(n + 2));
            let params = Seq::new(7, |i: int| IrType::I64);
            assert(params =~= syscall_params());
            let c2 = c.on().on();
            assert(c2.values_of(args) =~= vs);
            let r = (w.call)(rt.mem, "syscall_"@, params, IrType::I64, vs);
            let v = Val { t: IrType::I64, bits: r.0 };
            let c3 = c2.put_with(v, r.1);
            let c4 = c3.put(v);
            lemma_then(w, p, c, c, c.on());
            lemma_then(w, p, c, c.on(), c2);
            lemma_then(w, p, c, c2, c3);
            lemma_then(w, p, c, c3, c4);
            c4
        },
        Builtin::Alloca => lemma_reserved(w, slots, t, callee, arg, acts, args, vs, p, rt, c),
        Builtin::Get => {
            if vs.len() >= 2 && vs[0].t is I64 && vs[1].t is I64 && byte_size(t) is Some {
                lemma_bytes(t);
                assert(p[n] == Action::Load(IrType::I64, args[0], 8));
                assert(p[n + 1] == Action::ImulImm(args[1], size(t)));
                assert(p[n + 2] == Action::Binary(BinaryOp::Iadd, n, n + 1));
                assert(p[n + 3] == Action::Load(ir(t), n + 2, 0));
                let b = Val {
                    t: IrType::I64,
                    bits: (w.load)(rt.mem, IrType::I64, vs[0].bits + 8),
                };
                let o = wrap(IrType::I64, vs[1].bits * size(t));
                let at = element(w, t, vs[0], vs[1], rt.mem);
                let c1 = c.put(b);
                let c2 = c1.put(o);
                let c3 = c2.put(at);
                let c4 = c3.put(Val { t: ir(t), bits: (w.load)(rt.mem, ir(t), at.bits) });
                lemma_then(w, p, c, c, c1);
                assert(c1.values[args[1]] == vs[1]);
                lemma_then(w, p, c, c1, c2);
                assert(c2.values[n] == b && c2.values[n + 1] == o);
                assert(instruction(w, BinaryOp::Iadd, b, o) == Some(at)) by {
                    lemma_add_mod_noop_right(
                        b.bits,
                        vs[1].bits * bytes(t),
                        0x1_0000_0000_0000_0000,
                    );
                }
                lemma_then(w, p, c, c2, c3);
                lemma_then(w, p, c, c3, c4);
                c4
            } else {
                c
            }
        },
        _ => {
            match out {
                Out::Gives(v, after) => {
                    let (x, y) = (vs[0], vs[1]);
                    assert(c.values[args[0]] == x && c.values[args[1]] == y);
                    assert(p[n] == low.acts[n]);
                    let d = c.put(v);
                    if op is Less {
                        assert(step(w, p, c) == Some(d));
                    } else {
                        assert(instruction(w, binary_op(op, t), x, y) == Some(v));
                    }
                    lemma_then(w, p, c, c, d);
                    d
                },
                _ => c,
            }
        },
    }
}

/// A call of a function.
proof fn lemma_function_call(
    w: World,
    slots: int,
    t: Type<'_>,
    callee: Type<'_>,
    name: Seq<char>,
    env: EnvView,
    acts: Seq<Action>,
    args: Seq<int>,
    vs: Seq<Val>,
    p: Seq<Action>,
    rt: Rt,
    c: Config,
) -> (d: Config)
    requires
        builtin(name) is None,
        linked(env, rt, c.vars),
        continues(lower_call(callee, name, resolve(env.scopes, name), acts, args).acts, p),
        c.pc == acts.len(),
        c.mem == rt.mem,
        args.len() == vs.len(),
        forall|i: int|
            0 <= i < vs.len() ==> 0 <= #[trigger] args[i] < acts.len() && c.values[args[i]]
                == vs[i],
    ensures
        performed(
            w,
            p,
            c,
            d,
            rt,
            lower_call(callee, name, resolve(env.scopes, name), acts, args),
            perform(w, slots, t, callee, name, vs, rt),
        ),
{
    let n = acts.len() as int;
    lemma_here(w, p, c);
    lemma_names(env, rt, c.vars, name);
    match callee {
        Type::Function(a, r) => match resolve(env.scopes, name) {
            Some(var) => {
                assert(p[n] == Action::ImportSignature(ir_types(a@), ir(*r)));
                assert(p[n + 1] == Action::UseVar(var));
                assert(p[n + 2] == Action::CallIndirect(n, n + 1, args));
                assert(p[n + 3] == Action::InstResult(n + 2));
                let f = c.vars[var];
                let c2 = c.on().put(f);
                assert(c2.values_of(args) =~= vs);
                let g = (w.call_at)(rt.mem, f.bits, ir_types(a@), ir(*r), vs);
                let v = Val { t: ir(*r), bits: g.0 };
                let c3 = c2.put_with(v, g.1);
                let c4 = c3.put(v);
                lemma_then(w, p, c, c, c.on());
                lemma_then(w, p, c, c.on(), c2);
                lemma_then(w, p, c, c2, c3);
                lemma_then(w, p, c, c3, c4);
                c4
            },
            None => {
                let s = symbol(name, a@, *r);
                assert(p[n] == Action::DeclareFunction(s, ir_types(a@), ir(*r)));
                assert(p[n + 1] == Action::ImportFunction(n, ir(*r)));
                assert(p[n + 2] == Action::Call(n + 1, args));
                assert(p[n + 3] == Action::InstResult(n + 2));
                let c2 = c.on().on();
                assert(c2.values_of(args) =~= vs);
                let g = (w.call)(rt.mem, s, ir_types(a@), ir(*r), vs);
                let v = Val { t: ir(*r), bits: g.0 };
                let c3 = c2.put_with(v, g.1);
                let c4 = c3.put(v);
                lemma_then(w, p, c, c, c.on());
                lemma_then(w, p, c, c.on(), c2);
                lemma_then(w, p, c, c2, c3);
                lemma_then(w, p, c, c3, c4);
                c4
            },
        },
        _ => c,
    }
}

/// A call: its arguments, and then what is called.
#[verifier::rlimit(40)]
proof fn lemma_call(
    w: World,
    e: SExpr<'_>,
    seen: Tally,
    acts: Seq<Action>,
    env: EnvView,
    brk: Option<int>,
    p: Seq<Action>,
    rt: Rt,
    c: Config,
    fuel: nat,
) -> (d: Config)
    requires
        e is FuncCall,
        ready(p, seen, acts, lower(e, acts, env, brk).acts, env, rt, c),
    ensures
        done(
            w,
            p,
            c,
            d,
            acts.len() as int,
            env,
            rt,
            brk,
            lower(e, acts, env, brk),
            env_after(e, env),
            eval(w, e, seen, rt, fuel),
        ),
    decreases fuel, e, 0nat,
{
    let n = acts.len() as int;
    let low = lower(e, acts, env, brk);
    match e {
        SExpr::FuncCall { meta, func, values } => {
            let args = lower_all(values@, acts, env, brk);
            let env1 = env_after_all(values@, env);
            let seen1 = seen.plus(contains_all(values@));
            lemma_all_add(values@, acts, env, brk, -1);
            lemma_all_continue(values@, acts, env, brk);
            assert(continues(args.acts, p));
            let d = lemma_all(w, values@, seen, acts, env, brk, p, rt, c, fuel);
            match eval_all(w, values@, seen, rt, fuel) {
                Outs::Give(vs, after) => match *func {
                    SExpr::Symbol { meta: callee, value: name } => {
                        let f = if builtin(name@) is Some {
                            lemma_builtin(
                                w,
                                seen1.slots,
                                meta.type_,
                                callee.type_,
                                name@,
                                type_of(values@[0]),
                                args.acts,
                                args.values,
                                vs,
                                p,
                                after,
                                d,
                            )
                        } else {
                            lemma_function_call(
                                w,
                                seen1.slots,
                                meta.type_,
                                callee.type_,
                                name@,
                                env1,
                                args.acts,
                                args.values,
                                vs,
                                p,
                                after,
                                d,
                            )
                        };
                        match perform(w, seen1.slots, meta.type_, callee.type_, name@, vs, after) {
                            Out::Gives(v, last) => {
                                lemma_join(w, p, c, d, f);
                                assert(framed(c, f, n));
                                assert(linked(env1, last, f.vars));
                                assert(kept(env, rt, env1, last));
                            },
                            _ => {},
                        }
                        f
                    },
                    _ => d,
                },
                _ => d,
            }
        },
        _ => c,
    }
}

/// Expressions in a scope of their own.
proof fn lemma_sequence(
    w: World,
    e: SExpr<'_>,
    seen: Tally,
    acts: Seq<Action>,
    env: EnvView,
    brk: Option<int>,
    p: Seq<Action>,
    rt: Rt,
    c: Config,
    fuel: nat,
) -> (d: Config)
    requires
        e is Sequence,
        ready(p, seen, acts, lower(e, acts, env, brk).acts, env, rt, c),
    ensures
        done(
            w,
            p,
            c,
            d,
            acts.len() as int,
            env,
            rt,
            brk,
            lower(e, acts, env, brk),
            env_after(e, env),
            eval(w, e, seen, rt, fuel),
        ),
    decreases fuel, e, 0nat,
{
    let n = acts.len() as int;
    let low = lower(e, acts, env, brk);
    match e {
        SExpr::Sequence { meta, values } => {
            let inner = env_after_all(values@, env.enter());
            lemma_enter(env);
            lemma_inside(env, rt, c.vars);
            lemma_all_kept(values@, env.enter());
            assert(inner.leave().scopes =~= env.scopes) by {
                assert(env.enter().scopes.drop_last() =~= env.scopes);
            }
            let d = lemma_all(w, values@, seen, acts, env.enter(), brk, p, rt.inside(), c, fuel);
            match eval_all(w, values@, seen, rt.inside(), fuel) {
                Outs::Give(vs, after) => {
                    if vs.len() > 0 {
                        lemma_inner_outer(env.enter(), rt.inside(), inner, after, d.vars);
                        lemma_back(env, rt, c.vars, inner.leave(), after, d.vars);
                        let all = lower_all(values@, acts, env.enter(), brk);
                        assert(all.values[vs.len() - 1] == all.values.last());
                    }
                },
                Outs::Leave(v, after) => {
                    if brk is Some {
                        lemma_further_out(env, rt, d.vars, after.store);
                    }
                },
                Outs::Stop => {},
            }
            d
        },
        _ => c,
    }
}

/// A condition: what was chosen is its value.
#[verifier::rlimit(60)]
proof fn lemma_cond(
    w: World,
    e: SExpr<'_>,
    seen: Tally,
    acts: Seq<Action>,
    env: EnvView,
    brk: Option<int>,
    p: Seq<Action>,
    rt: Rt,
    c: Config,
    fuel: nat,
) -> (d: Config)
    requires
        e is Cond,
        ready(p, seen, acts, lower(e, acts, env, brk).acts, env, rt, c),
    ensures
        done(
            w,
            p,
            c,
            d,
            acts.len() as int,
            env,
            rt,
            brk,
            lower(e, acts, env, brk),
            env_after(e, env),
            eval(w, e, seen, rt, fuel),
        ),
    decreases fuel, e, 0nat,
{
    let n = acts.len() as int;
    let low = lower(e, acts, env, brk);
    match e {
        SExpr::Cond { meta, values, elsy } => {
            let count = values@.len();
            let end = n + 2 * count;
            let blocks = cond_blocks(count, acts);
            let acts1 = blocks.push(Action::CreateBlock).push(
                Action::AppendBlockParam(end, ir(meta.type_)),
            );
            let acts2 = lower_arms(values@, acts1, env, brk, n, end);
            let env1 = env_after_arms(values@, env);
            let other = match elsy {
                Some(e) => lower(*e, acts2, env1.enter(), brk),
                None => last(acts2, Action::Bconst(IrType::B1, false)),
            };
            let m = other.acts.len() as int;
            let seen1 = seen.plus(contains_arms(values@));
            lemma_blocks_add(count, acts, -1);
            lemma_arms_add(values@, acts1, env, brk, n, end, -1);
            assert(counted(acts1, seen)) by {
                broadcast use lemma_pushes;

            }
            lemma_blocks_continue(count, acts);
            lemma_arms_continue(values@, acts1, env, brk, n, end);
            if elsy is Some {
                law_lowering_continues(*elsy->0, acts2, env1.enter(), brk);
            }
            assert(continues(other.acts, p));
            assert(continues(acts2, p));
            assert(continues(acts1, p));
            assert(continues(blocks, p));
            lemma_blocks(w, count, acts, p, c);
            assert(p[end] == Action::CreateBlock) by {
                assert(acts1[end] == p[end]);
            }
            assert(p[end + 1] == Action::AppendBlockParam(end, ir(meta.type_))) by {
                assert(acts1[end + 1] == p[end + 1]);
            }
            assert(p[m] == Action::Jump(end, Some(other.value)));
            assert(p[m + 1] == Action::SwitchToBlock(end));
            assert(p[m + 2] == Action::BlockParam(end, 0));
            lemma_target(p, end, m + 1);
            let c1 = c.at(end);
            let c2 = c1.on();
            let c3 = c2.on();
            lemma_then(w, p, c, c1, c2);
            lemma_then(w, p, c, c2, c3);
            lemma_arms_kept(values@, env);
            lemma_arm_scopes(values@, env);
            law_scopes_are_kept(e, env);
            let env2 = env_after(e, env);
            assert(env2.scopes == env.scopes) by {
                if elsy is Some {
                    lemma_enter(env1);
                    law_scopes_are_kept(*elsy->0, env1.enter());
                    assert(env1.enter().scopes.drop_last() =~= env1.scopes);
                }
            }
            let d = lemma_arms(w, values@, seen, acts1, env, brk, n, end, p, rt, c3, fuel);
            match eval_arms(w, values@, seen, rt, fuel) {
                Choice::Taken(Out::Gives(v, after)) => {
                    lemma_join(w, p, c, c3, d);
                    lemma_cond_end(w, p, c, d, n, m, end, env, rt, env2, v, after)
                },
                Choice::Taken(Out::Leaves(v, after)) => {
                    if brk is Some {
                        lemma_join(w, p, c, c3, d);
                        lemma_further_out(env, rt, d.vars, after.store);
                        assert(framed(c, d, n));
                    }
                    d
                },
                Choice::Taken(Out::Stops) => d,
                Choice::Open(after) => {
                    lemma_join(w, p, c, c3, d);
                    lemma_inside(env1, after, d.vars);
                    assert(env1.enter().scopes == env.enter().scopes);
                    assert(after.inside().scopes == rt.inside().scopes);
                    match elsy {
                        Some(e) => {
                            lemma_enter(env1);
                            let f = law_lowered_does_what_is_meant(
                                w,
                                *e,
                                seen1,
                                acts2,
                                env1.enter(),
                                brk,
                                p,
                                after.inside(),
                                d,
                                fuel,
                            );
                            match eval(w, *e, seen1, after.inside(), fuel) {
                                Out::Gives(v, later) => {
                                    lemma_join(w, p, c, d, f);
                                    let f1 = f.hand(end, v).at(m + 1);
                                    lemma_then(w, p, c, f, f1);
                                    lemma_inner_outer(
                                        env1.enter(),
                                        after.inside(),
                                        env_after(*e, env1.enter()),
                                        later,
                                        f.vars,
                                    );
                                    assert(framed(c, f1, n));
                                    lemma_cond_end(
                                        w,
                                        p,
                                        c,
                                        f1,
                                        n,
                                        m,
                                        end,
                                        env,
                                        rt,
                                        env2,
                                        v,
                                        later,
                                    )
                                },
                                Out::Leaves(v, later) => {
                                    if brk is Some {
                                        lemma_join(w, p, c, d, f);
                                        lemma_further_out(env, rt, f.vars, later.store);
                                        assert(framed(c, f, n));
                                    }
                                    f
                                },
                                Out::Stops => f,
                            }
                        },
                        None => {
                            let k = acts2.len() as int;
                            assert(p[k] == Action::Bconst(IrType::B1, false)) by {
                                assert(other.acts[k] == p[k]);
                            }
                            let f = d.put(truth(false));
                            lemma_then(w, p, c, d, f);
                            let f1 = f.hand(end, truth(false)).at(m + 1);
                            lemma_then(w, p, c, f, f1);
                            lemma_inner_outer(
                                env1.enter(),
                                after.inside(),
                                env1.enter(),
                                after.inside(),
                                f.vars,
                            );
                            assert(framed(c, f1, n));
                            assert(after.back(rt) == after);
                            lemma_cond_end(
                                w,
                                p,
                                c,
                                f1,
                                n,
                                m,
                                end,
                                env,
                                rt,
                                env2,
                                truth(false),
                                after,
                            )
                        },
                    }
                },
            }
        },
        _ => c,
    }
}

/// What holds of the variables of all scopes but the innermost one holds without
/// the scope around that one too.
proof fn lemma_further_out(env: EnvView, rt: Rt, vars: Map<int, Val>, store: Map<int, Val>)
    requires
        env.scopes.len() == rt.scopes.len(),
        outer_linked(env.enter(), rt.inside(), vars, store),
    ensures
        outer_linked(env, rt, vars, store),
{
    let (ei, ri) = (env.enter(), rt.inside());
    assert forall|i: int, a: Seq<char>| #[trigger]
        bound(env.scopes, i, a) && i < env.scopes.len() - 1 implies vars[env.scopes[i][a]]
        == store[rt.scopes[i][a]] by {
        assert(ei.scopes[i] == env.scopes[i]);
        assert(ri.scopes[i] == rt.scopes[i]);
        assert(bound(ei.scopes, i, a));
    }
}

/// The end of a condition, where its value is taken.
proof fn lemma_cond_end(
    w: World,
    p: Seq<Action>,
    c: Config,
    d: Config,
    n: int,
    m: int,
    end: int,
    env: EnvView,
    rt: Rt,
    env2: EnvView,
    v: Val,
    after: Rt,
) -> (f: Config)
    requires
        runs(w, p, c, d),
        linked(env, rt, c.vars),
        0 <= n <= m,
        m + 2 < p.len(),
        d.pc == m + 1,
        p[m + 1] == Action::SwitchToBlock(end),
        p[m + 2] == Action::BlockParam(end, 0),
        d.params[(end, 0)] == v,
        framed(c, d, n),
        outer_linked(env.enter(), rt.inside(), d.vars, after.store),
        env2.scopes == env.scopes,
        env2.next() >= env.next(),
        after.next >= rt.next,
    ensures
        runs(w, p, c, f),
        f.pc == m + 3,
        f.values[m + 2] == v,
        f.mem == d.mem,
        framed(c, f, n),
        linked(env2, after.back(rt), f.vars),
        kept(env, rt, env2, after.back(rt)),
{
    let d1 = d.on();
    let d2 = d1.put(v);
    lemma_then(w, p, c, d, d1);
    lemma_then(w, p, c, d1, d2);
    lemma_back(env, rt, c.vars, env2, after, d.vars);
    d2
}

/// A break goes to the end of the loop around it.
proof fn lemma_break(
    w: World,
    e: SExpr<'_>,
    seen: Tally,
    acts: Seq<Action>,
    env: EnvView,
    brk: Option<int>,
    p: Seq<Action>,
    rt: Rt,
    c: Config,
    fuel: nat,
) -> (d: Config)
    requires
        e is Break,
        ready(p, seen, acts, lower(e, acts, env, brk).acts, env, rt, c),
    ensures
        done(
            w,
            p,
            c,
            d,
            acts.len() as int,
            env,
            rt,
            brk,
            lower(e, acts, env, brk),
            env_after(e, env),
            eval(w, e, seen, rt, fuel),
        ),
    decreases fuel, e, 0nat,
{
    let n = acts.len() as int;
    let low = lower(e, acts, env, brk);
    match e {
        SExpr::Break { meta, value } => {
            let v = match value {
                Some(e) => lower(*e, acts, env, brk),
                None => last(acts, Action::Bconst(ir(meta.type_), false)),
            };
            let m = v.acts.len() as int;
            assert(continues(v.acts, p));
            assert(p[m] == Action::Jump(brk->0, Some(v.value)));
            match value {
                Some(e) => {
                    law_lowering_continues(*e, acts, env, brk);
                    let d = law_lowered_does_what_is_meant(
                        w,
                        *e,
                        seen,
                        acts,
                        env,
                        brk,
                        p,
                        rt,
                        c,
                        fuel,
                    );
                    match eval(w, *e, seen, rt, fuel) {
                        Out::Gives(x, after) => {
                            let d1 = d.hand(brk->0, x).at(target(p, brk->0));
                            lemma_then(w, p, c, d, d1);
                            lemma_inner_outer(env, rt, env_after(*e, env), after, d.vars);
                            d1
                        },
                        _ => d,
                    }
                },
                None => {
                    assert(p[n] == Action::Bconst(ir(meta.type_), false)) by {
                        assert(v.acts[n] == p[n]);
                    }
                    let x = zero(ir(meta.type_));
                    let d = c.put(x);
                    let d1 = d.hand(brk->0, x).at(target(p, brk->0));
                    lemma_here(w, p, c);
                    lemma_then(w, p, c, c, d);
                    lemma_then(w, p, c, d, d1);
                    lemma_kept_here(env, rt);
                    lemma_inner_outer(env, rt, env, rt, d.vars);
                    d1
                },
            }
        },
        _ => c,
    }
}

/// A declaration: its name stands for a new variable from then on.
#[verifier::rlimit(40)]
proof fn lemma_declaration(
    w: World,
    e: SExpr<'_>,
    seen: Tally,
    acts: Seq<Action>,
    env: EnvView,
    brk: Option<int>,
    p: Seq<Action>,
    rt: Rt,
    c: Config,
    fuel: nat,
) -> (d: Config)
    requires
        e is Declare,
        ready(p, seen, acts, lower(e, acts, env, brk).acts, env, rt, c),
    ensures
        done(
            w,
            p,
            c,
            d,
            acts.len() as int,
            env,
            rt,
            brk,
            lower(e, acts, env, brk),
            env_after(e, env),
            eval(w, e, seen, rt, fuel),
        ),
    decreases fuel, e, 0nat,
{
    let n = acts.len() as int;
    let low = lower(e, acts, env, brk);
    match e {
        SExpr::Declare { meta, variable, value, .. } => {
            let t = ir(meta.type_);
            let var = env.next();
            let acts1 = acts.push(Action::DeclareVar(var, t));
            let env1 = env.declare(t);
            let v = lower(*value, acts1, env1, brk);
            let m = v.acts.len() as int;
            law_lowering_continues(*value, acts1, env1, brk);
            assert(continues(v.acts, p));
            assert(p[n] == Action::DeclareVar(var, t)) by {
                assert(acts1[n] == v.acts[n]);
                assert(v.acts[n] == p[n]);
            }
            assert(p[m] == Action::DefVar(var, v.value));
            assert(p[m + 1] == Action::UseVar(var));
            assert(counted(acts1, seen)) by {
                broadcast use lemma_pushes;

            }
            lemma_here(w, p, c);
            lemma_then(w, p, c, c, c.on());
            lemma_declare(env, t);
            lemma_numbers(env, t, rt, c.vars);
            law_scopes_are_kept(*value, env1);
            let env2 = env_after(*value, env1);
            let d = law_lowered_does_what_is_meant(
                w,
                *value,
                seen,
                acts1,
                env1,
                brk,
                p,
                rt,
                c.on(),
                fuel,
            );
            match eval(w, *value, seen, rt, fuel) {
                Out::Gives(x, after) => {
                    lemma_join(w, p, c, c.on(), d);
                    let d1 = d.set(var, x).on();
                    let d2 = d1.put(x);
                    lemma_then(w, p, c, d, d1);
                    lemma_then(w, p, c, d1, d2);
                    assert forall|i: int, a: Seq<char>| #[trigger]
                        bound(env2.scopes, i, a) implies env2.scopes[i][a] != var by {
                        if bound(env1.scopes, i, a) {
                            assert(bound(env.scopes, i, a));
                        }
                    }
                    lemma_kept_trans(env, rt, env1, rt, env2, after);
                    lemma_declared(env2, after, d.vars, variable@, var, x);
                    lemma_declared_kept(env, rt, env2, after, variable@, var, x);
                    assert(framed(c, d2, n));
                    d2
                },
                Out::Leaves(x, after) => {
                    if brk is Some {
                        lemma_join(w, p, c, c.on(), d);
                        lemma_outer_kept(env, rt, env1, rt, d.vars, after.store);
                        assert(framed(c, d, n));
                    }
                    d
                },
                Out::Stops => d,
            }
        },
        _ => c,
    }
}

/// An assignment: to a variable, or to a place in memory.
#[verifier::rlimit(60)]
proof fn lemma_assignment(
    w: World,
    e: SExpr<'_>,
    seen: Tally,
    acts: Seq<Action>,
    env: EnvView,
    brk: Option<int>,
    p: Seq<Action>,
    rt: Rt,
    c: Config,
    fuel: nat,
) -> (d: Config)
    requires
        e is Assign,
        ready(p, seen, acts, lower(e, acts, env, brk).acts, env, rt, c),
    ensures
        done(
            w,
            p,
            c,
            d,
            acts.len() as int,
            env,
            rt,
            brk,
            lower(e, acts, env, brk),
            env_after(e, env),
            eval(w, e, seen, rt, fuel),
        ),
    decreases fuel, e, 0nat,
{
    let n = acts.len() as int;
    let low = lower(e, acts, env, brk);
    match e {
        SExpr::Assign { lvalue, value, .. } => {
            let v = lower(*value, acts, env, brk);
            let m = v.acts.len() as int;
            let env1 = env_after(*value, env);
            let seen1 = seen.plus(contains(*value));
            law_lowering_adds(*value, acts, env, brk, -1);
            law_lowering_continues(*value, acts, env, brk);
            lemma_place_continues(lvalue, v.acts, env1, brk);
            assert(continues(v.acts, low.acts));
            assert(continues(v.acts, p));
            law_scopes_are_kept(*value, env);
            let d = law_lowered_does_what_is_meant(w, *value, seen, acts, env, brk, p, rt, c, fuel);
            match eval(w, *value, seen, rt, fuel) {
                Out::Gives(x, after) => match lvalue {
                    LValue::Symbol(name) => {
                        lemma_names(env, rt, c.vars, name@);
                        match resolve(env.scopes, name@) {
                            Some(var) => {
                                let l = lookup(rt.scopes, name@)->0;
                                assert(p[m] == Action::DefVar(var, v.value));
                                assert(p[m + 1] == Action::UseVar(var));
                                let d1 = d.set(var, x).on();
                                let d2 = d1.put(x);
                                lemma_then(w, p, c, d, d1);
                                lemma_then(w, p, c, d1, d2);
                                let i = choose|i: int| #[trigger]
                                    bound(env.scopes, i, name@) && env.scopes[i][name@] == var
                                        && rt.scopes[i][name@] == l;
                                lemma_assigned(
                                    env,
                                    rt,
                                    c.vars,
                                    env1,
                                    after,
                                    d.vars,
                                    i,
                                    name@,
                                    x,
                                );
                                assert(framed(c, d2, n));
                                d2
                            },
                            None => d,
                        }
                    },
                    _ => {
                        let at = lower_place(lvalue, v.acts, env1, brk);
                        let k = at.acts.len() as int;
                        assert(continues(at.acts, p));
                        assert(p[k] == Action::Store(v.value, at.value, 0));
                        let f = lemma_place(w, lvalue, seen1, v.acts, env1, brk, p, after, d, fuel);
                        match address(w, lvalue, seen1, after, fuel) {
                            Out::Gives(y, last) => {
                                lemma_join(w, p, c, d, f);
                                let env2 = env_after_place(lvalue, env1);
                                lemma_kept_trans(env, rt, env1, after, env2, last);
                                let mem = (w.store)(last.mem, x.t, y.bits, x.bits);
                                let f1 = Config { mem, ..f }.on();
                                assert(f.values[v.value] == d.values[v.value]);
                                lemma_then(w, p, c, f, f1);
                                assert(framed(c, f1, n));
                                assert(linked(env2, last.with(mem), f1.vars));
                                assert(kept(env, rt, env2, last.with(mem)));
                                f1
                            },
                            Out::Leaves(y, last) => {
                                if brk is Some {
                                    lemma_join(w, p, c, d, f);
                                    lemma_outer_kept(env, rt, env1, after, f.vars, last.store);
                                    assert(framed(c, f, n));
                                }
                                f
                            },
                            Out::Stops => f,
                        }
                    },
                },
                _ => d,
            }
        },
        _ => c,
    }
}

/// An attribute of a slice.
proof fn lemma_attribute(
    w: World,
    e: SExpr<'_>,
    seen: Tally,
    acts: Seq<Action>,
    env: EnvView,
    brk: Option<int>,
    p: Seq<Action>,
    rt: Rt,
    c: Config,
    fuel: nat,
) -> (d: Config)
    requires
        e is Attribute,
        ready(p, seen, acts, lower(e, acts, env, brk).acts, env, rt, c),
    ensures
        done(
            w,
            p,
            c,
            d,
            acts.len() as int,
            env,
            rt,
            brk,
            lower(e, acts, env, brk),
            env_after(e, env),
            eval(w, e, seen, rt, fuel),
        ),
    decreases fuel, e, 0nat,
{
    let n = acts.len() as int;
    let low = lower(e, acts, env, brk);
    match e {
        SExpr::Attribute { meta, top, attrs } => {
            let t = ir(meta.type_);
            let v = lower(*top, acts, env, brk);
            let m = v.acts.len() as int;
            law_lowering_continues(*top, acts, env, brk);
            assert(continues(v.acts, p));
            let d = law_lowered_does_what_is_meant(w, *top, seen, acts, env, brk, p, rt, c, fuel);
            match eval(w, *top, seen, rt, fuel) {
                Out::Gives(x, after) => if attrs@.len() > 0 && field(attrs@[0]@) is Some {
                    let o = field(attrs@[0]@)->0;
                    assert(p[m] == Action::Load(t, v.value, o as i32));
                    let d1 = d.put(Val { t, bits: (w.load)(after.mem, t, x.bits + o) });
                    lemma_then(w, p, c, d, d1);
                    assert(framed(c, d1, n));
                    d1
                } else {
                    d
                },
                _ => d,
            }
        },
        _ => c,
    }
}

/// A name: a variable, or a function.
proof fn lemma_name(
    w: World,
    e: SExpr<'_>,
    seen: Tally,
    acts: Seq<Action>,
    env: EnvView,
    brk: Option<int>,
    p: Seq<Action>,
    rt: Rt,
    c: Config,
    fuel: nat,
) -> (d: Config)
    requires
        e is Symbol,
        ready(p, seen, acts, lower(e, acts, env, brk).acts, env, rt, c),
    ensures
        done(
            w,
            p,
            c,
            d,
            acts.len() as int,
            env,
            rt,
            brk,
            lower(e, acts, env, brk),
            env_after(e, env),
            eval(w, e, seen, rt, fuel),
        ),
    decreases fuel, e, 0nat,
{
    let n = acts.len() as int;
    let low = lower(e, acts, env, brk);
    match e {
        SExpr::Symbol { meta, value } => {
            lemma_here(w, p, c);
            lemma_kept_here(env, rt);
            lemma_names(env, rt, c.vars, value@);
            match resolve(env.scopes, value@) {
                Some(var) => {
                    assert(p[n] == Action::UseVar(var));
                    let d = c.put(c.vars[var]);
                    lemma_then(w, p, c, c, d);
                    d
                },
                None => match meta.type_ {
                    Type::Function(a, r) => {
                        let s = symbol(value@, a@, *r);
                        assert(p[n] == Action::DeclareFunction(s, ir_types(a@), ir(*r)));
                        assert(p[n + 1] == Action::ImportFunction(n, ir(*r)));
                        assert(p[n + 2] == Action::FuncAddr(ir(meta.type_), n + 1));
                        let d1 = c.on();
                        let d2 = d1.on();
                        let d3 = d2.put(Val { t: IrType::I64, bits: (w.function)(s) });
                        lemma_then(w, p, c, c, d1);
                        lemma_then(w, p, c, d1, d2);
                        lemma_then(w, p, c, d2, d3);
                        d3
                    },
                    _ => c,
                },
            }
        },
        _ => c,
    }
}

/// What an expression is lowered to does what the expression means: a machine that
/// runs a plan with it in it, from where it begins, comes to its end and has the
/// value there that the expression gives, or comes to the end of the loop around it
/// with the value that the loop is left with. Memory and all variables are then
/// as the expression leaves them, and earlier values are as they were.
pub proof fn law_lowered_does_what_is_meant(
    w: World,
    e: SExpr<'_>,
    seen: Tally,
    acts: Seq<Action>,
    env: EnvView,
    brk: Option<int>,
    p: Seq<Action>,
    rt: Rt,
    c: Config,
    fuel: nat,
) -> (d: Config)
    requires
        ready(p, seen, acts, lower(e, acts, env, brk).acts, env, rt, c),
    ensures
        done(
            w,
            p,
            c,
            d,
            acts.len() as int,
            env,
            rt,
            brk,
            lower(e, acts, env, brk),
            env_after(e, env),
            eval(w, e, seen, rt, fuel),
        ),
    decreases fuel, e, 1nat,
{
    let n = acts.len() as int;
    let low = lower(e, acts, env, brk);
    match e {
        SExpr::Int { meta, value } => {
            lemma_literal(meta.type_, value);
            lemma_here(w, p, c);
            lemma_kept_here(env, rt);
            assert(p[n] == low.acts[n]);
            let d = c.put(literal(meta.type_, value));
            lemma_then(w, p, c, c, d);
            d
        },
        SExpr::Float { meta, value } => {
            lemma_here(w, p, c);
            lemma_kept_here(env, rt);
            assert(p[n] == low.acts[n]);
            let d = c.put(
                if meta.type_ is F32 {
                    Val { t: IrType::F32, bits: value.single as int }
                } else {
                    Val { t: IrType::F64, bits: value.double as int }
                },
            );
            lemma_then(w, p, c, c, d);
            d
        },
        SExpr::Nil { meta } => {
            lemma_here(w, p, c);
            lemma_kept_here(env, rt);
            assert(p[n] == low.acts[n]);
            let d = c.put(zero(ir(meta.type_)));
            lemma_then(w, p, c, c, d);
            d
        },
        SExpr::Str { meta, value } => {
            let d = lemma_text_runs(w, seen, meta.type_, value@, env.next(), acts, p, rt, c);
            match text(w, seen, meta.type_, value@, rt) {
                Out::Gives(v, after) => {
                    assert(linked(env.reserve(), after, d.vars));
                    assert(kept(env, rt, env.reserve(), after));
                },
                _ => {},
            }
            d
        },
        SExpr::Symbol { .. } => lemma_name(w, e, seen, acts, env, brk, p, rt, c, fuel),
        SExpr::Sequence { .. } => lemma_sequence(w, e, seen, acts, env, brk, p, rt, c, fuel),
        SExpr::Cond { .. } => lemma_cond(w, e, seen, acts, env, brk, p, rt, c, fuel),
        SExpr::Loop { meta, value } => {
            let acts1 = acts.push(Action::CreateBlock).push(Action::CreateBlock).push(
                Action::AppendBlockParam(n + 1, ir(meta.type_)),
            ).push(Action::Jump(n, None)).push(Action::SwitchToBlock(n));
            let body = lower(*value, acts1, env.enter(), Some(n + 1));
            law_lowering_continues(*value, acts1, env.enter(), Some(n + 1));
            assert(continues(body.acts, p));
            assert forall|i: int| n <= i < n + 5 implies #[trigger] p[i] == acts1[i] by {
                assert(body.acts[i] == acts1[i]);
            }
            assert(p[n] == Action::CreateBlock);
            assert(p[n + 1] == Action::CreateBlock);
            assert(p[n + 2] == Action::AppendBlockParam(n + 1, ir(meta.type_)));
            assert(p[n + 3] == Action::Jump(n, None));
            assert(p[n + 4] == Action::SwitchToBlock(n));
            lemma_target(p, n, n + 4);
            let c3 = c.on().on().on();
            let c4 = c3.at(n + 4);
            lemma_here(w, p, c);
            lemma_then(w, p, c, c, c.on());
            lemma_then(w, p, c, c.on(), c.on().on());
            lemma_then(w, p, c, c.on().on(), c3);
            lemma_then(w, p, c, c3, c4);
            let d = lemma_loop(w, e, seen, acts, env, brk, p, rt, c4, fuel);
            match eval(w, e, seen, rt, fuel) {
                Out::Gives(..) => {
                    lemma_join(w, p, c, c4, d);
                },
                Out::Leaves(..) => {
                    if brk is Some {
                        lemma_join(w, p, c, c4, d);
                    }
                },
                Out::Stops => {},
            }
            d
        },
        SExpr::Break { .. } => lemma_break(w, e, seen, acts, env, brk, p, rt, c, fuel),
        SExpr::Type { value, .. } => law_lowered_does_what_is_meant(
            w,
            *value,
            seen,
            acts,
            env,
            brk,
            p,
            rt,
            c,
            fuel,
        ),
        SExpr::FuncCall { .. } => lemma_call(w, e, seen, acts, env, brk, p, rt, c, fuel),
        SExpr::Declare { .. } => lemma_declaration(w, e, seen, acts, env, brk, p, rt, c, fuel),
        SExpr::Assign { .. } => lemma_assignment(w, e, seen, acts, env, brk, p, rt, c, fuel),
        SExpr::Attribute { .. } => lemma_attribute(w, e, seen, acts, env, brk, p, rt, c, fuel),
        _ => c,
    }
}

} // verus!
