//! A function does what its body means.

use vstd::prelude::*;

use crate::accept::law_function_is_accepted;
use crate::ast::{SExpr, Type};
use crate::correct::law_lowered_does_what_is_meant;
use crate::function::{
    arg_types, body_env, function_translatable, keeps_to_one_block, lemma_start_env, lower_function,
    start, start_env,
};
use crate::generator::{compilable, definition};
use crate::ir::{ir_types, IrType};
use crate::linked::{bound, lemma_declared, lemma_numbers, linked};
use crate::lower::{ir, lower};
use crate::machine::{begin, hands_back, lemma_here, lemma_join, lemma_then, once, runs, Config};
use crate::meaning::{eval, Mem, Out, Rt, Val, World};
use crate::prefix::{continues, law_lowering_continues};
use crate::protocol::{accepted, state};
use crate::step::Action;
use crate::tally::{lemma_pushes, nothing, tally};

verus! {

/// What a function begins with: its parameters are variables, in order.
pub open spec fn called_with(args: Seq<(&str, Type<'_>)>, vs: Seq<Val>, mem: Mem) -> Rt
    decreases args.len(),
{
    if args.len() == 0 {
        Rt { scopes: seq![Map::empty()], store: Map::empty(), next: 0, mem }
    } else {
        called_with(args.drop_last(), vs, mem).declare(args.last().0@, vs[args.len() - 1])
    }
}

/// Whether no block that was gone to can be gone to again.
spec fn behind(acts: Seq<Action>) -> bool {
    &&& forall|b: int| #[trigger]
        state(acts).blocks.contains_key(b) ==> 0 <= b < acts.len()
    &&& forall|q: int|
        0 <= q < acts.len() && #[trigger] acts[q] is SwitchToBlock ==> {
            let b = acts[q]->SwitchToBlock_0;
            state(acts).blocks.contains_key(b) && !(state(acts).blocks[b] is Fresh)
        }
}

/// A plan that the builder takes switches to every block at most once.
pub proof fn law_accepted_switches_once(acts: Seq<Action>)
    requires
        accepted(acts),
    ensures
        once(acts),
{
    lemma_behind(acts);
}

proof fn lemma_behind(acts: Seq<Action>)
    requires
        accepted(acts),
    ensures
        once(acts),
        behind(acts),
    decreases acts.len(),
{
    reveal(accepted);
    reveal(state);
    if acts.len() > 0 {
        let before = acts.drop_last();
        let a = acts.last();
        let n = acts.len() - 1;
        lemma_behind(before);
        let (s, t) = (state(before), state(acts));
        assert(t == s.next(a, n));
        assert forall|b: int| #[trigger] t.blocks.contains_key(b) implies 0 <= b < acts.len() by {
            if !s.blocks.contains_key(b) {
                assert(b == n);
            }
        }
        assert forall|q: int| 0 <= q < acts.len() && #[trigger] acts[q] is SwitchToBlock implies {
            let b = acts[q]->SwitchToBlock_0;
            t.blocks.contains_key(b) && !(t.blocks[b] is Fresh)
        } by {
            if q < n {
                assert(before[q] == acts[q]);
            }
        }
        assert forall|q: int, r: int|
            0 <= q < acts.len() && 0 <= r < acts.len() && #[trigger] acts[q] is SwitchToBlock
                && #[trigger] acts[r] == acts[q] implies q == r by {
            if q < n {
                assert(before[q] == acts[q]);
            }
            if r < n {
                assert(before[r] == acts[r]);
            }
        }
    }
}

/// The first block of a function takes its parameters.
proof fn lemma_take_params(
    w: World,
    p: Seq<Action>,
    vs: Seq<Val>,
    mem: Mem,
    params: Seq<IrType>,
    ret: IrType,
) -> (d: Config)
    requires
        p.len() >= 4,
        p[0] == Action::Begin(params, ret),
        p[1] is CreateBlock,
        p[2] == Action::AppendFunctionParams(1),
        p[3] == Action::SwitchToBlock(1),
    ensures
        runs(w, p, begin(vs, mem), d),
        d.pc == 4,
        d.mem == mem,
        forall|i: int| 0 <= i < vs.len() ==> #[trigger] d.params[(1, i)] == vs[i],
{
    let c = begin(vs, mem);
    let c2 = c.on().on();
    let c3 = Config {
        params: c2.params.union_prefer_right(
        Map::new(
            |k: (int, int)| k.0 == 1 && 0 <= k.1 < c2.args.len(),
            |k: (int, int)| c2.args[k.1],
        ),
        ),
        ..c2
    }.on();
    lemma_here(w, p, c);
    lemma_then(w, p, c, c, c.on());
    lemma_then(w, p, c, c.on(), c2);
    lemma_then(w, p, c, c2, c3);
    lemma_then(w, p, c, c3, c3.on());
    c3.on()
}

/// A function begins by making variables of its parameters.
proof fn lemma_begin(
    w: World,
    args: Seq<(&str, Type<'_>)>,
    params: Seq<IrType>,
    ret: IrType,
    lone: bool,
    p: Seq<Action>,
    vs: Seq<Val>,
    mem: Mem,
) -> (d: Config)
    requires
        continues(start(args, params, ret), p),
        args.len() <= vs.len(),
    ensures
        runs(w, p, begin(vs, mem), d),
        d.pc == start(args, params, ret).len(),
        d.mem == mem,
        forall|i: int| 0 <= i < vs.len() ==> #[trigger] d.params[(1, i)] == vs[i],
        linked(start_env(args, lone), called_with(args, vs, mem), d.vars),
        called_with(args, vs, mem).mem == mem,
        tally(start(args, params, ret), -1) == nothing(),
    decreases args.len(),
{
    let acts = start(args, params, ret);
    let c = begin(vs, mem);
    if args.len() == 0 {
        assert(acts =~= Seq::<Action>::empty().push(Action::Begin(params, ret)).push(
            Action::CreateBlock,
        ).push(Action::AppendFunctionParams(1)).push(Action::SwitchToBlock(1)));
        assert(tally(acts, -1) == nothing()) by {
            broadcast use lemma_pushes;

            assert(tally(Seq::<Action>::empty(), -1) == nothing());
        }
        assert(p[0] == acts[0] && p[1] == acts[1] && p[2] == acts[2] && p[3] == acts[3]);
        lemma_take_params(w, p, vs, mem, params, ret)
    } else {
        let less = args.drop_last();
        let i = args.len() - 1;
        let before = start(less, params, ret);
        let m = before.len() as int;
        let t = ir(args.last().1);
        let name = args.last().0@;
        assert(continues(before, p));
        let d = lemma_begin(w, less, params, ret, lone, p, vs, mem);
        let (env, rt) = (start_env(less, lone), called_with(less, vs, mem));
        lemma_start_env(less, lone);
        assert(tally(acts, -1) == nothing()) by {
            broadcast use lemma_pushes;

        }
        assert(p[m] == Action::DeclareVar(i, t));
        assert(p[m + 1] == Action::BlockParam(1, i));
        assert(p[m + 2] == Action::DefVar(i, m + 1));
        let d1 = d.on();
        let d2 = d1.put(vs[i]);
        let d3 = d2.set(i, vs[i]).on();
        lemma_then(w, p, c, d, d1);
        lemma_then(w, p, c, d1, d2);
        lemma_then(w, p, c, d2, d3);
        lemma_numbers(env, t, rt, d.vars);
        let env1 = env.declare(t);
        assert forall|j: int, a: Seq<char>| #[trigger]
            bound(env1.scopes, j, a) implies env1.scopes[j][a] != i by {
            assert(bound(env.scopes, j, a));
        }
        lemma_declared(env1, rt, d.vars, name, i, vs[i]);
        d3
    }
}

/// A function does what its body means: it returns what the body gives, with the
/// parameters as variables, and leaves memory as the body does.
pub proof fn law_function_does_what_is_meant(
    w: World,
    name: Seq<char>,
    args: Seq<(&str, Type<'_>)>,
    ret: Type<'_>,
    expr: SExpr<'_>,
    vs: Seq<Val>,
    mem: Mem,
    fuel: nat,
) -> (d: Config)
    requires
        function_translatable(name, args, ret, expr),
        vs.len() == args.len(),
    ensures
        eval(w, expr, nothing(), called_with(args, vs, mem), fuel) matches Out::Gives(v, after)
            ==> {
            let p = lower_function(args, ret, expr);
            &&& runs(w, p, begin(vs, mem), d)
            &&& hands_back(p, d, v)
            &&& d.mem == after.mem
        },
{
    let p = lower_function(args, ret, expr);
    let params = ir_types(arg_types(args));
    let acts = start(args, params, ir(ret));
    let env = body_env(args, expr);
    let lone = keeps_to_one_block(args, expr);
    let body = lower(expr, acts, env, None);
    let rt = called_with(args, vs, mem);
    law_function_is_accepted(name, args, ret, expr);
    law_accepted_switches_once(p);
    law_lowering_continues(expr, acts, env, None);
    assert(continues(body.acts, p));
    assert(continues(acts, p));
    lemma_start_env(args, lone);
    let c = begin(vs, mem);
    let d = lemma_begin(w, args, params, ir(ret), lone, p, vs, mem);
    let f = law_lowered_does_what_is_meant(w, expr, nothing(), acts, env, None, p, rt, d, fuel);
    match eval(w, expr, nothing(), rt, fuel) {
        Out::Gives(v, after) => {
            lemma_join(w, p, c, d, f);
            assert(p[body.acts.len() as int] == Action::Return(body.value));
        },
        _ => {},
    }
    f
}

/// The code that is made for a definition does what the definition means.
pub proof fn law_definition_does_what_is_meant(
    w: World,
    e: SExpr<'_>,
    vs: Seq<Val>,
    mem: Mem,
    fuel: nat,
) -> (d: Config)
    requires
        definition(e) is Some,
        compilable(e),
        vs.len() == e->args@.len(),
    ensures
        eval(w, *e->expr, nothing(), called_with(e->args@, vs, mem), fuel) matches Out::Gives(
            v,
            after,
        ) ==> {
            let p = (definition(e)->0).plan();
            &&& runs(w, p, begin(vs, mem), d)
            &&& hands_back(p, d, v)
            &&& d.mem == after.mem
        },
{
    let f = definition(e)->0;
    law_function_does_what_is_meant(w, f.name, f.args, f.ret, f.expr, vs, mem, fuel)
}

} // verus!
