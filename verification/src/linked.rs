//! How the variables of a running plan stand to those of the program that it was
//! made from.

use vstd::prelude::*;

use crate::env::{resolve, EnvView};
use crate::ir::IrType;
use crate::meaning::{lookup, Names, Rt, Val};

verus! {

/// Whether a scope has a name.
pub open spec fn bound(scopes: Seq<Names>, i: int, name: Seq<char>) -> bool {
    0 <= i < scopes.len() && scopes[i].contains_key(name)
}

/// Whether the variables of a plan hold what the variables of the program do: both
/// have the same names, every name has variables of its own, and these hold the same.
pub open spec fn linked(env: EnvView, rt: Rt, vars: Map<int, Val>) -> bool {
    &&& env.scopes.len() == rt.scopes.len()
    &&& env.scopes.len() > 0
    &&& 0 <= rt.next
    &&& forall|i: int, a: Seq<char>| #[trigger]
        bound(env.scopes, i, a) <==> #[trigger] bound(rt.scopes, i, a)
    &&& forall|i: int, a: Seq<char>| #[trigger]
        bound(env.scopes, i, a) ==> {
            &&& 0 <= env.scopes[i][a] < env.next()
            &&& 0 <= rt.scopes[i][a] < rt.next
            &&& vars[env.scopes[i][a]] == rt.store[rt.scopes[i][a]]
        }
    &&& forall|i: int, a: Seq<char>, j: int, b: Seq<char>| #[trigger]
        bound(env.scopes, i, a) && #[trigger] bound(env.scopes, j, b) && (i != j || a != b)
            ==> env.scopes[i][a] != env.scopes[j][b] && rt.scopes[i][a] != rt.scopes[j][b]
}

/// Whether names that are there later were there before, with the same variables,
/// or have newer ones.
pub open spec fn kept(env: EnvView, rt: Rt, env2: EnvView, rt2: Rt) -> bool {
    &&& env.scopes.len() == env2.scopes.len()
    &&& rt.scopes.len() == rt2.scopes.len()
    &&& env.next() <= env2.next()
    &&& rt.next <= rt2.next
    &&& forall|i: int|
        0 <= i < env.scopes.len() - 1 ==> #[trigger] env2.scopes[i] == env.scopes[i]
    &&& forall|i: int| 0 <= i < rt.scopes.len() - 1 ==> #[trigger] rt2.scopes[i] == rt.scopes[i]
    &&& forall|i: int, a: Seq<char>| #[trigger]
        bound(env2.scopes, i, a) ==> {
            ||| {
                &&& bound(env.scopes, i, a)
                &&& env2.scopes[i][a] == env.scopes[i][a]
                &&& rt2.scopes[i][a] == rt.scopes[i][a]
            }
            ||| {
                &&& env2.scopes[i][a] >= env.next()
                &&& rt2.scopes[i][a] >= rt.next
            }
        }
}

/// Whether the variables of all scopes but the innermost one hold the same.
pub open spec fn outer_linked(
    env: EnvView,
    rt: Rt,
    vars: Map<int, Val>,
    store: Map<int, Val>,
) -> bool {
    forall|i: int, a: Seq<char>| #[trigger]
        bound(env.scopes, i, a) && i < env.scopes.len() - 1 ==> vars[env.scopes[i][a]]
            == store[rt.scopes[i][a]]
}

pub proof fn lemma_kept_here(env: EnvView, rt: Rt)
    ensures
        kept(env, rt, env, rt),
{
}

pub proof fn lemma_kept_trans(
    env: EnvView,
    rt: Rt,
    env1: EnvView,
    rt1: Rt,
    env2: EnvView,
    rt2: Rt,
)
    requires
        kept(env, rt, env1, rt1),
        kept(env1, rt1, env2, rt2),
    ensures
        kept(env, rt, env2, rt2),
{
    assert forall|i: int| 0 <= i < env.scopes.len() - 1 implies #[trigger] env2.scopes[i]
        == env.scopes[i] by {
        assert(env1.scopes[i] == env.scopes[i]);
    }
    assert forall|i: int| 0 <= i < rt.scopes.len() - 1 implies #[trigger] rt2.scopes[i]
        == rt.scopes[i] by {
        assert(rt1.scopes[i] == rt.scopes[i]);
    }
    assert forall|i: int, a: Seq<char>| #[trigger] bound(env2.scopes, i, a) implies {
        ||| {
            &&& bound(env.scopes, i, a)
            &&& env2.scopes[i][a] == env.scopes[i][a]
            &&& rt2.scopes[i][a] == rt.scopes[i][a]
        }
        ||| {
            &&& env2.scopes[i][a] >= env.next()
            &&& rt2.scopes[i][a] >= rt.next
        }
    } by {
        if bound(env1.scopes, i, a) {
        }
    }
}

pub proof fn lemma_outer_kept(
    env: EnvView,
    rt: Rt,
    env1: EnvView,
    rt1: Rt,
    vars: Map<int, Val>,
    store: Map<int, Val>,
)
    requires
        env.scopes.len() == rt.scopes.len(),
        kept(env, rt, env1, rt1),
        outer_linked(env1, rt1, vars, store),
    ensures
        outer_linked(env, rt, vars, store),
{
    assert forall|i: int, a: Seq<char>| #[trigger]
        bound(env.scopes, i, a) && i < env.scopes.len() - 1 implies vars[env.scopes[i][a]]
        == store[rt.scopes[i][a]] by {
        assert(env1.scopes[i] == env.scopes[i]);
        assert(rt1.scopes[i] == rt.scopes[i]);
        assert(bound(env1.scopes, i, a));
    }
}

/// A name stands for variables that hold the same, in the plan and in the program.
pub proof fn lemma_names(env: EnvView, rt: Rt, vars: Map<int, Val>, name: Seq<char>)
    requires
        linked(env, rt, vars),
    ensures
        resolve(env.scopes, name) is Some <==> lookup(rt.scopes, name) is Some,
        resolve(env.scopes, name) is Some ==> exists|i: int| #[trigger]
            bound(env.scopes, i, name) && env.scopes[i][name] == resolve(env.scopes, name)->0
                && rt.scopes[i][name] == lookup(rt.scopes, name)->0,
        resolve(env.scopes, name) is Some ==> vars[resolve(env.scopes, name)->0]
            == rt.store[lookup(rt.scopes, name)->0],
{
    lemma_names_below(env, rt, vars, name, env.scopes.len() as int);
    assert(env.scopes.take(env.scopes.len() as int) =~= env.scopes);
    assert(rt.scopes.take(rt.scopes.len() as int) =~= rt.scopes);
}

proof fn lemma_names_below(env: EnvView, rt: Rt, vars: Map<int, Val>, name: Seq<char>, n: int)
    requires
        linked(env, rt, vars),
        0 <= n <= env.scopes.len(),
    ensures
        ({
            let v = resolve(env.scopes.take(n), name);
            let l = lookup(rt.scopes.take(n), name);
            &&& v is Some <==> l is Some
            &&& v is Some ==> exists|i: int| #[trigger]
                bound(env.scopes, i, name) && env.scopes[i][name] == v->0 && rt.scopes[i][name]
                    == l->0
        }),
    decreases n,
{
    if n > 0 {
        let (a, b) = (env.scopes.take(n), rt.scopes.take(n));
        assert(a.drop_last() =~= env.scopes.take(n - 1));
        assert(b.drop_last() =~= rt.scopes.take(n - 1));
        assert(a.last() == env.scopes[n - 1]);
        assert(b.last() == rt.scopes[n - 1]);
        assert(bound(env.scopes, n - 1, name) <==> bound(rt.scopes, n - 1, name));
        if bound(env.scopes, n - 1, name) {
        } else {
            lemma_names_below(env, rt, vars, name, n - 1);
        }
    }
}

/// A new scope has no names.
pub proof fn lemma_inside(env: EnvView, rt: Rt, vars: Map<int, Val>)
    requires
        linked(env, rt, vars),
    ensures
        linked(env.enter(), rt.inside(), vars),
{
    let (e, r) = (env.enter(), rt.inside());
    assert forall|i: int, a: Seq<char>| bound(e.scopes, i, a) <==> bound(env.scopes, i, a) by {}
    assert forall|i: int, a: Seq<char>| bound(r.scopes, i, a) <==> bound(rt.scopes, i, a) by {}
    assert forall|i: int, a: Seq<char>| #[trigger] bound(e.scopes, i, a) <==> #[trigger] bound(
        r.scopes,
        i,
        a,
    ) by {
        assert(bound(env.scopes, i, a) <==> bound(rt.scopes, i, a));
    }
    assert forall|i: int, a: Seq<char>| #[trigger] bound(e.scopes, i, a) implies {
        &&& 0 <= e.scopes[i][a] < e.next()
        &&& 0 <= r.scopes[i][a] < r.next
        &&& vars[e.scopes[i][a]] == r.store[r.scopes[i][a]]
    } by {
        assert(bound(env.scopes, i, a));
    }
    assert forall|i: int, a: Seq<char>, j: int, b: Seq<char>| #[trigger]
        bound(e.scopes, i, a) && #[trigger] bound(e.scopes, j, b) && (i != j || a != b) implies {
        e.scopes[i][a] != e.scopes[j][b] && r.scopes[i][a] != r.scopes[j][b]
    } by {
        assert(bound(env.scopes, i, a));
        assert(bound(env.scopes, j, b));
    }
}

/// Out of a scope, the variables of the scopes around it hold the same, whatever
/// became of the innermost one.
pub proof fn lemma_back(
    env: EnvView,
    rt: Rt,
    vars: Map<int, Val>,
    env2: EnvView,
    rt2: Rt,
    vars2: Map<int, Val>,
)
    requires
        linked(env, rt, vars),
        env2.scopes == env.scopes,
        env2.next() >= env.next(),
        rt2.next >= rt.next,
        outer_linked(env.enter(), rt.inside(), vars2, rt2.store),
    ensures
        linked(env2, rt2.back(rt), vars2),
        kept(env, rt, env2, rt2.back(rt)),
{
    let r = rt2.back(rt);
    let (ei, ri) = (env.enter(), rt.inside());
    assert forall|i: int, a: Seq<char>| #[trigger] bound(env2.scopes, i, a) implies {
        &&& 0 <= env2.scopes[i][a] < env2.next()
        &&& 0 <= r.scopes[i][a] < r.next
        &&& vars2[env2.scopes[i][a]] == r.store[r.scopes[i][a]]
    } by {
        assert(bound(env.scopes, i, a));
        assert(ei.scopes[i] == env.scopes[i]);
        assert(ri.scopes[i] == rt.scopes[i]);
        assert(bound(ei.scopes, i, a));
    }
}

/// What is linked at the end of a scope is so in the scopes around it.
pub proof fn lemma_inner_outer(
    env: EnvView,
    rt: Rt,
    env2: EnvView,
    rt2: Rt,
    vars2: Map<int, Val>,
)
    requires
        linked(env2, rt2, vars2),
        env.scopes.len() == rt.scopes.len(),
        kept(env, rt, env2, rt2),
    ensures
        outer_linked(env, rt, vars2, rt2.store),
{
    assert(outer_linked(env2, rt2, vars2, rt2.store));
    lemma_outer_kept(env, rt, env2, rt2, vars2, rt2.store);
}

/// More numbers leave the variables as they are.
pub proof fn lemma_numbers(env: EnvView, t: IrType, rt: Rt, vars: Map<int, Val>)
    requires
        linked(env, rt, vars),
    ensures
        linked(env.declare(t), rt, vars),
        kept(env, rt, env.declare(t), rt),
{
}

/// A name for a variable that no other name stands for.
pub proof fn lemma_declared(
    env: EnvView,
    rt: Rt,
    vars: Map<int, Val>,
    name: Seq<char>,
    var: int,
    v: Val,
)
    requires
        linked(env, rt, vars),
        0 <= var < env.next(),
        forall|i: int, a: Seq<char>| #[trigger]
            bound(env.scopes, i, a) ==> env.scopes[i][a] != var,
    ensures
        linked(env.bind(name, var), rt.declare(name, v), vars.insert(var, v)),
{
    let (e, r, s) = (env.bind(name, var), rt.declare(name, v), vars.insert(var, v));
    let n = env.scopes.len() - 1;
    assert forall|i: int, a: Seq<char>| #[trigger]
        bound(e.scopes, i, a) <==> bound(env.scopes, i, a) || (i == n && a == name) by {}
    assert forall|i: int, a: Seq<char>| #[trigger]
        bound(r.scopes, i, a) <==> bound(rt.scopes, i, a) || (i == n && a == name) by {}
    assert forall|i: int, a: Seq<char>| #[trigger] bound(e.scopes, i, a) && (i != n || a
        != name) implies {
        &&& bound(env.scopes, i, a)
        &&& e.scopes[i][a] == env.scopes[i][a]
        &&& r.scopes[i][a] == rt.scopes[i][a]
    } by {}
    assert forall|i: int, a: Seq<char>| #[trigger] bound(e.scopes, i, a) <==> #[trigger] bound(
        r.scopes,
        i,
        a,
    ) by {
        assert(bound(env.scopes, i, a) <==> bound(rt.scopes, i, a));
    }
    assert(e.scopes[n][name] == var && r.scopes[n][name] == rt.next);
    assert forall|i: int, a: Seq<char>| #[trigger] bound(e.scopes, i, a) implies {
        &&& 0 <= e.scopes[i][a] < e.next()
        &&& 0 <= r.scopes[i][a] < r.next
        &&& s[e.scopes[i][a]] == r.store[r.scopes[i][a]]
    } by {
        if i != n || a != name {
            assert(bound(env.scopes, i, a));
        }
    }
    assert forall|i: int, a: Seq<char>, j: int, b: Seq<char>| #[trigger]
        bound(e.scopes, i, a) && #[trigger] bound(e.scopes, j, b) && (i != j || a != b) implies {
        e.scopes[i][a] != e.scopes[j][b] && r.scopes[i][a] != r.scopes[j][b]
    } by {}
}

/// The same, after what happened since the variable was declared.
pub proof fn lemma_declared_kept(
    env: EnvView,
    rt: Rt,
    env2: EnvView,
    rt2: Rt,
    name: Seq<char>,
    var: int,
    v: Val,
)
    requires
        kept(env, rt, env2, rt2),
        env.scopes.len() == rt.scopes.len(),
        env.scopes.len() > 0,
        var >= env.next(),
    ensures
        kept(env, rt, env2.bind(name, var), rt2.declare(name, v)),
{
    let (e, r) = (env2.bind(name, var), rt2.declare(name, v));
    let n = env.scopes.len() - 1;
    assert forall|i: int| 0 <= i < env.scopes.len() - 1 implies #[trigger] e.scopes[i]
        == env.scopes[i] by {
        assert(env2.scopes[i] == env.scopes[i]);
    }
    assert forall|i: int| 0 <= i < rt.scopes.len() - 1 implies #[trigger] r.scopes[i]
        == rt.scopes[i] by {
        assert(rt2.scopes[i] == rt.scopes[i]);
    }
    assert forall|i: int, a: Seq<char>| #[trigger] bound(e.scopes, i, a) implies {
        ||| {
            &&& bound(env.scopes, i, a)
            &&& e.scopes[i][a] == env.scopes[i][a]
            &&& r.scopes[i][a] == rt.scopes[i][a]
        }
        ||| {
            &&& e.scopes[i][a] >= env.next()
            &&& r.scopes[i][a] >= rt.next
        }
    } by {
        if i == n && a == name {
        } else {
            assert(bound(env2.scopes, i, a));
        }
    }
}

/// A new value for the variables of a name that was there before.
pub proof fn lemma_assigned(
    env: EnvView,
    rt: Rt,
    vars: Map<int, Val>,
    env2: EnvView,
    rt2: Rt,
    vars2: Map<int, Val>,
    i: int,
    name: Seq<char>,
    v: Val,
)
    requires
        linked(env, rt, vars),
        linked(env2, rt2, vars2),
        kept(env, rt, env2, rt2),
        bound(env.scopes, i, name),
    ensures
        linked(
            env2,
            rt2.assign(rt.scopes[i][name], v),
            vars2.insert(env.scopes[i][name], v),
        ),
        kept(env, rt, env2, rt2.assign(rt.scopes[i][name], v)),
{
    let (var, l) = (env.scopes[i][name], rt.scopes[i][name]);
    let (r, s) = (rt2.assign(l, v), vars2.insert(var, v));
    assert forall|j: int, a: Seq<char>| #[trigger] bound(env2.scopes, j, a) implies {
        &&& 0 <= env2.scopes[j][a] < env2.next()
        &&& 0 <= r.scopes[j][a] < r.next
        &&& s[env2.scopes[j][a]] == r.store[r.scopes[j][a]]
    } by {
        if bound(env.scopes, j, a) && env2.scopes[j][a] == env.scopes[j][a] && rt2.scopes[j][a]
            == rt.scopes[j][a] {
        } else {
            assert(env2.scopes[j][a] >= env.next());
        }
    }
}

} // verus!
