//! What holds of the places that are assigned to.

use vstd::prelude::*;

use crate::ast::{type_of, LValue, SExpr};
use crate::env::{resolve, EnvView};
use crate::ir::IrType;
use crate::lower::{
    builtin, env_after, env_after_all, env_after_place, ir, lower, lower_all, lower_builtin,
    lower_place, size, Builtin,
};
use crate::prefix::law_lowering_continues;
use crate::step::{Action, BinaryOp};

verus! {

/// The name that a place is reached from, by dereferences alone.
pub open spec fn pointer_name(place: LValue<'_>) -> Option<Seq<char>>
    decreases place,
{
    match place {
        LValue::Symbol(name) => Some(name@),
        LValue::Deref(v) => pointer_name(*v),
        _ => None,
    }
}

/// How many dereferences lead to a place.
pub open spec fn dereferences(place: LValue<'_>) -> nat
    decreases place,
{
    match place {
        LValue::Deref(v) => dereferences(*v) + 1,
        _ => 0,
    }
}

/// A place behind a name and some dereferences is found by loads, one less than
/// there are dereferences: the name's variable is itself the first address, and
/// each load gives the address that the next one goes by. Nothing else is done:
/// nothing is stored, and variables and their numbers stay as they are.
pub proof fn law_dereferences_are_loads(
    place: LValue<'_>,
    acts: Seq<Action>,
    env: EnvView,
    brk: Option<int>,
)
    requires
        pointer_name(place) is Some,
    ensures
        ({
            let p = lower_place(place, acts, env, brk);
            let n = acts.len() as int;
            let loads = if dereferences(place) == 0 {
                0
            } else {
                dereferences(place) - 1
            };
            &&& p.acts.len() == n + 1 + loads
            &&& p.acts.take(n) == acts
            &&& p.acts[n] == Action::UseVar(resolve(env.scopes, pointer_name(place)->0)->0)
            &&& forall|k: int|
                n < k <= n + loads ==> #[trigger] p.acts[k] == Action::Load(IrType::I64, k - 1, 0)
            &&& p.value == n + loads
        }),
        env_after_place(place, env) == env,
    decreases place,
{
    let n = acts.len() as int;
    match place {
        LValue::Deref(v) => {
            law_dereferences_are_loads(*v, acts, env, brk);
            let p = lower_place(*v, acts, env, brk);
            if !(*v is Symbol) {
                assert(p.acts.push(Action::Load(IrType::I64, p.value, 0)).take(n) =~= acts);
            }
        },
        LValue::Symbol(name) => {
            let a = Action::UseVar(resolve(env.scopes, name@)->0);
            assert(acts.push(a).take(n) =~= acts);
        },
        _ => {},
    }
}

/// Whether an address is that of an element of the slice that a variable points
/// to: the slice's own address, and as many bytes on as the index says.
pub open spec fn element_address(
    acts: Seq<Action>,
    at: int,
    var: int,
    index: int,
    bytes: i64,
) -> bool {
    exists|slice: int, base: int, offset: int|
        {
            &&& #[trigger] acts[slice] == Action::UseVar(var)
            &&& #[trigger] acts[base] == Action::Load(IrType::I64, slice, 8)
            &&& #[trigger] acts[offset] == Action::ImulImm(index, bytes)
            &&& acts[at] == Action::Binary(BinaryOp::Iadd, base, offset)
        }
}

/// An element of a slice is written where it is read: the place of an element
/// and a call of `get` come to the same address. The index is lowered once in
/// either case, and nothing but the address comes after it.
pub proof fn law_elements_are_written_where_read(
    place: LValue<'_>,
    read: SExpr<'_>,
    acts: Seq<Action>,
    env: EnvView,
    brk: Option<int>,
    var: int,
)
    requires
        place is Get,
        *place->Get_1 is Symbol,
        read is FuncCall,
        *read->func is Symbol,
        read->func->Symbol_value@ == "get"@,
        read->FuncCall_meta.type_ == place->Get_0,
        read->FuncCall_values@.len() == 2,
        read->FuncCall_values@[0] is Symbol,
        read->FuncCall_values@[0]->Symbol_value == place->Get_1->Symbol_0,
        read->FuncCall_values@[1] == *place->Get_2,
        resolve(env.scopes, place->Get_1->Symbol_0@) == Some(var),
        resolve(env_after(*place->Get_2, env).scopes, place->Get_1->Symbol_0@) == Some(var),
    ensures
        ({
            let p = lower_place(place, acts, env, brk);
            let index = lower(*place->Get_2, acts, env, brk);
            &&& p.acts.len() == index.acts.len() + 4
            &&& element_address(p.acts, p.value, var, index.value, size(place->Get_0))
        }),
        ({
            let r = lower(read, acts, env, brk);
            let index = lower(*place->Get_2, acts.push(Action::UseVar(var)), env, brk);
            &&& r.acts.len() == index.acts.len() + 4
            &&& r.acts[r.value] == Action::Load(ir(place->Get_0), r.value - 1, 0)
            &&& element_address(r.acts, r.value - 1, var, index.value, size(place->Get_0))
        }),
{
    reveal_with_fuel(lower_place, 2);
    let t = place->Get_0;
    let i = *place->Get_2;
    let p = lower_place(place, acts, env, brk);
    let index = lower(i, acts, env, brk);
    let n = index.acts.len() as int;
    assert(p.acts[n + 1] == Action::UseVar(var));
    assert(p.acts[n + 2] == Action::Load(IrType::I64, n + 1, 8));
    assert(p.acts[n] == Action::ImulImm(index.value, size(t)));
    assert(p.acts[p.value] == Action::Binary(BinaryOp::Iadd, n + 2, n));
    lemma_get_is_read(read, acts, env, brk, var);
}

/// Whether an address is that of an element of a slice.
pub open spec fn element_at(
    acts: Seq<Action>,
    at: int,
    slice: int,
    index: int,
    bytes: i64,
) -> bool {
    exists|base: int, offset: int|
        {
            &&& #[trigger] acts[base] == Action::Load(IrType::I64, slice, 8)
            &&& #[trigger] acts[offset] == Action::ImulImm(index, bytes)
            &&& acts[at] == Action::Binary(BinaryOp::Iadd, base, offset)
        }
}

/// Whether an address is that of an element of a slice that is itself an element
/// of the slice that a variable points to: the inner element is loaded from its
/// address, once, and what was loaded is the slice that the outer one is in.
pub open spec fn nested_element_at(
    acts: Seq<Action>,
    at: int,
    var: int,
    inner: int,
    inner_bytes: i64,
    outer: int,
    outer_bytes: i64,
) -> bool {
    exists|name: int, element: int, slice: int|
        {
            &&& acts[name] == Action::UseVar(var)
            &&& #[trigger] element_at(acts, element, name, inner, inner_bytes)
            &&& acts[slice] == Action::Load(IrType::I64, element, 0)
            &&& #[trigger] element_at(acts, at, slice, outer, outer_bytes)
        }
}

proof fn lemma_element_at(
    acts: Seq<Action>,
    at: int,
    slice: int,
    index: int,
    bytes: i64,
    base: int,
    offset: int,
)
    requires
        acts[base] == Action::Load(IrType::I64, slice, 8),
        acts[offset] == Action::ImulImm(index, bytes),
        acts[at] == Action::Binary(BinaryOp::Iadd, base, offset),
    ensures
        element_at(acts, at, slice, index, bytes),
{
}

/// An element of a slice that is itself an element of a slice is written where it
/// is read: the place of it and two nested calls of `get` with the same indices
/// come to the same address.
pub proof fn law_nested_elements_are_written_where_read(
    place: LValue<'_>,
    read: SExpr<'_>,
    acts: Seq<Action>,
    env: EnvView,
    brk: Option<int>,
    var: int,
)
    requires
        place is Get,
        *place->Get_1 is Get,
        *place->Get_1->Get_1 is Symbol,
        read is FuncCall,
        *read->func is Symbol,
        read->func->Symbol_value@ == "get"@,
        read->FuncCall_meta.type_ == place->Get_0,
        read->FuncCall_values@.len() == 2,
        read->FuncCall_values@[1] == *place->Get_2,
        ({
            let inner = read->FuncCall_values@[0];
            let slice = place->Get_1->Get_1->Symbol_0;
            &&& inner is FuncCall
            &&& *inner->func is Symbol
            &&& inner->func->Symbol_value@ == "get"@
            &&& inner->FuncCall_meta.type_ == place->Get_1->Get_0
            &&& inner->FuncCall_values@.len() == 2
            &&& inner->FuncCall_values@[0] is Symbol
            &&& inner->FuncCall_values@[0]->Symbol_value == slice
            &&& inner->FuncCall_values@[1] == *place->Get_1->Get_2
            &&& resolve(env.scopes, slice@) == Some(var)
            &&& resolve(
                env_after(*place->Get_1->Get_2, env_after(*place->Get_2, env)).scopes,
                slice@,
            ) == Some(var)
        }),
        place->Get_1->Get_0 is Slice,
    ensures
        ({
            let p = lower_place(place, acts, env, brk);
            let outer = lower(*place->Get_2, acts, env, brk);
            let inner = lower(
                *place->Get_1->Get_2,
                outer.acts.push(Action::ImulImm(outer.value, size(place->Get_0))),
                env_after(*place->Get_2, env),
                brk,
            );
            nested_element_at(
                p.acts,
                p.value,
                var,
                inner.value,
                size(place->Get_1->Get_0),
                outer.value,
                size(place->Get_0),
            )
        }),
        ({
            let r = lower(read, acts, env, brk);
            let first = lower(read->FuncCall_values@[0], acts, env, brk);
            let inner = lower(*place->Get_1->Get_2, acts.push(Action::UseVar(var)), env, brk);
            let outer = lower(
                *place->Get_2,
                first.acts,
                env_after(read->FuncCall_values@[0], env),
                brk,
            );
            &&& r.acts[r.value] == Action::Load(ir(place->Get_0), r.value - 1, 0)
            &&& nested_element_at(
                r.acts,
                r.value - 1,
                var,
                inner.value,
                size(place->Get_1->Get_0),
                outer.value,
                size(place->Get_0),
            )
        }),
{
    lemma_nested_place(place, acts, env, brk, var);
    lemma_nested_read(read, acts, env, brk, var);
}

proof fn lemma_nested_place(
    place: LValue<'_>,
    acts: Seq<Action>,
    env: EnvView,
    brk: Option<int>,
    var: int,
)
    requires
        place is Get,
        *place->Get_1 is Get,
        *place->Get_1->Get_1 is Symbol,
        resolve(
            env_after(*place->Get_1->Get_2, env_after(*place->Get_2, env)).scopes,
            place->Get_1->Get_1->Symbol_0@,
        ) == Some(var),
    ensures
        ({
            let p = lower_place(place, acts, env, brk);
            let outer = lower(*place->Get_2, acts, env, brk);
            let inner = lower(
                *place->Get_1->Get_2,
                outer.acts.push(Action::ImulImm(outer.value, size(place->Get_0))),
                env_after(*place->Get_2, env),
                brk,
            );
            nested_element_at(
                p.acts,
                p.value,
                var,
                inner.value,
                size(place->Get_1->Get_0),
                outer.value,
                size(place->Get_0),
            )
        }),
{
    reveal_with_fuel(lower_place, 3);
    let (t, u) = (place->Get_0, place->Get_1->Get_0);
    let (i, j) = (*place->Get_2, *place->Get_1->Get_2);
    let p = lower_place(place, acts, env, brk);
    let outer = lower(i, acts, env, brk);
    let first = outer.acts.push(Action::ImulImm(outer.value, size(t)));
    let inner = lower(j, first, env_after(i, env), brk);
    let (n, m) = (outer.acts.len() as int, inner.acts.len() as int);
    law_lowering_continues(j, first, env_after(i, env), brk);
    assert(p.acts[n] == Action::ImulImm(outer.value, size(t))) by {
        assert(first[n] == inner.acts[n]);
    }
    assert(p.acts[m] == Action::ImulImm(inner.value, size(u)));
    assert(p.acts[m + 1] == Action::UseVar(var));
    assert(p.acts[m + 2] == Action::Load(IrType::I64, m + 1, 8));
    assert(p.acts[m + 3] == Action::Binary(BinaryOp::Iadd, m + 2, m));
    assert(p.acts[m + 4] == Action::Load(IrType::I64, m + 3, 0));
    assert(p.acts[m + 5] == Action::Load(IrType::I64, m + 4, 8));
    assert(p.acts[m + 6] == Action::Binary(BinaryOp::Iadd, m + 5, n));
    assert(p.value == m + 6);
    lemma_element_at(p.acts, m + 3, m + 1, inner.value, size(u), m + 2, m);
    lemma_element_at(p.acts, m + 6, m + 4, outer.value, size(t), m + 5, n);
}

proof fn lemma_nested_read(
    read: SExpr<'_>,
    acts: Seq<Action>,
    env: EnvView,
    brk: Option<int>,
    var: int,
)
    requires
        read is FuncCall,
        *read->func is Symbol,
        read->func->Symbol_value@ == "get"@,
        read->FuncCall_values@.len() == 2,
        ({
            let inner = read->FuncCall_values@[0];
            &&& inner is FuncCall
            &&& *inner->func is Symbol
            &&& inner->func->Symbol_value@ == "get"@
            &&& inner->FuncCall_meta.type_ is Slice
            &&& inner->FuncCall_values@.len() == 2
            &&& inner->FuncCall_values@[0] is Symbol
            &&& resolve(env.scopes, inner->FuncCall_values@[0]->Symbol_value@) == Some(var)
        }),
    ensures
        ({
            let call = read->FuncCall_values@[0];
            let t = read->FuncCall_meta.type_;
            let r = lower(read, acts, env, brk);
            let first = lower(call, acts, env, brk);
            let inner = lower(
                call->FuncCall_values@[1],
                acts.push(Action::UseVar(var)),
                env,
                brk,
            );
            let outer = lower(read->FuncCall_values@[1], first.acts, env_after(call, env), brk);
            &&& r.acts[r.value] == Action::Load(ir(t), r.value - 1, 0)
            &&& nested_element_at(
                r.acts,
                r.value - 1,
                var,
                inner.value,
                size(call->FuncCall_meta.type_),
                outer.value,
                size(t),
            )
        }),
{
    let t = read->FuncCall_meta.type_;
    let vs = read->FuncCall_values@;
    let call = vs[0];
    let u = call->FuncCall_meta.type_;
    let us = call->FuncCall_values@;
    let n = acts.len() as int;
    lemma_get_is_built_in();
    lemma_two(vs, acts, env, brk);
    lemma_two(us, acts, env, brk);
    let name = acts.push(Action::UseVar(var));
    assert(lower(us[0], acts, env, brk).acts == name);
    assert(env_after(us[0], env) == env);
    let inner = lower(us[1], name, env, brk);
    let m = inner.acts.len() as int;
    let f = lower(call, acts, env, brk);
    assert(f == lower_builtin(
        Builtin::Get,
        u,
        type_of(us[0]),
        inner.acts,
        seq![n, inner.value],
    ));
    assert(f.acts[m] == Action::Load(IrType::I64, n, 8));
    assert(f.acts[m + 1] == Action::ImulImm(inner.value, size(u)));
    assert(f.acts[m + 2] == Action::Binary(BinaryOp::Iadd, m, m + 1));
    assert(f.acts[m + 3] == Action::Load(IrType::I64, m + 2, 0));
    law_lowering_continues(us[1], name, env, brk);
    assert(f.acts[n] == Action::UseVar(var)) by {
        assert(name[n] == inner.acts[n]);
    }
    let outer = lower(vs[1], f.acts, env_after(call, env), brk);
    let k = outer.acts.len() as int;
    law_lowering_continues(vs[1], f.acts, env_after(call, env), brk);
    let r = lower(read, acts, env, brk);
    assert(r == lower_builtin(
        Builtin::Get,
        t,
        type_of(vs[0]),
        outer.acts,
        seq![m + 3, outer.value],
    ));
    assert forall|q: int| 0 <= q < f.acts.len() implies #[trigger] r.acts[q] == f.acts[q] by {
        assert(outer.acts[q] == f.acts[q]);
    }
    assert(r.acts[k] == Action::Load(IrType::I64, m + 3, 8));
    assert(r.acts[k + 1] == Action::ImulImm(outer.value, size(t)));
    assert(r.acts[k + 2] == Action::Binary(BinaryOp::Iadd, k, k + 1));
    lemma_element_at(r.acts, m + 2, n, inner.value, size(u), m, m + 1);
    lemma_element_at(r.acts, k + 2, m + 3, outer.value, size(t), k, k + 1);
    assert(r.acts[n] == Action::UseVar(var));
    assert(r.acts[m + 3] == Action::Load(IrType::I64, m + 2, 0));
}

proof fn lemma_get_is_read(
    read: SExpr<'_>,
    acts: Seq<Action>,
    env: EnvView,
    brk: Option<int>,
    var: int,
)
    requires
        read is FuncCall,
        *read->func is Symbol,
        read->func->Symbol_value@ == "get"@,
        read->FuncCall_values@.len() == 2,
        read->FuncCall_values@[0] is Symbol,
        resolve(env.scopes, read->FuncCall_values@[0]->Symbol_value@) == Some(var),
    ensures
        ({
            let t = read->FuncCall_meta.type_;
            let r = lower(read, acts, env, brk);
            let index = lower(
                read->FuncCall_values@[1],
                acts.push(Action::UseVar(var)),
                env,
                brk,
            );
            &&& r.acts.len() == index.acts.len() + 4
            &&& r.acts[r.value] == Action::Load(ir(t), r.value - 1, 0)
            &&& element_address(r.acts, r.value - 1, var, index.value, size(t))
        }),
{
    let t = read->FuncCall_meta.type_;
    let vs = read->FuncCall_values@;
    let r = lower(read, acts, env, brk);
    let first = acts.push(Action::UseVar(var));
    let index = lower(vs[1], first, env, brk);
    let all = lower_all(vs, acts, env, brk);
    lemma_two(vs, acts, env, brk);
    assert(lower(vs[0], acts, env, brk).acts == first);
    assert(env_after(vs[0], env) == env);
    lemma_get_is_built_in();
    assert(r == lower_builtin(
        Builtin::Get,
        t,
        type_of(vs[0]),
        all.acts,
        all.values,
    ));
    law_lowering_continues(vs[1], first, env, brk);
    let n = index.acts.len() as int;
    assert(r.acts[acts.len() as int] == Action::UseVar(var)) by {
        assert(first[acts.len() as int] == Action::UseVar(var));
    }
    assert(r.acts[n] == Action::Load(IrType::I64, acts.len() as int, 8));
    assert(r.acts[n + 1] == Action::ImulImm(index.value, size(t)));
    assert(r.acts[n + 2] == Action::Binary(BinaryOp::Iadd, n, n + 1));
}

/// What two expressions are lowered to.
proof fn lemma_two(vs: Seq<SExpr<'_>>, acts: Seq<Action>, env: EnvView, brk: Option<int>)
    requires
        vs.len() == 2,
    ensures
        ({
            let x = lower(vs[0], acts, env, brk);
            let y = lower(vs[1], x.acts, env_after(vs[0], env), brk);
            let all = lower_all(vs, acts, env, brk);
            &&& all.acts == y.acts
            &&& all.values == seq![x.value, y.value]
        }),
{
    reveal_with_fuel(lower_all, 3);
    reveal_with_fuel(env_after_all, 3);
    let one = vs.drop_last();
    assert(one.drop_last().len() == 0);
    assert(one[0] == vs[0]);
    let x = lower(vs[0], acts, env, brk);
    let before = lower_all(one, acts, env, brk);
    assert(before.acts == x.acts);
    assert(before.values =~= seq![x.value]);
    let y = lower(vs[1], x.acts, env_after(vs[0], env), brk);
    assert(lower_all(vs, acts, env, brk).values =~= seq![x.value, y.value]);
}

proof fn lemma_get_is_built_in()
    ensures
        builtin("get"@) == Some(Builtin::Get),
{
    reveal_strlit("get");
    reveal_strlit("+");
    reveal_strlit("-");
    reveal_strlit("*");
    reveal_strlit("/");
    reveal_strlit("%");
    reveal_strlit("syscall");
    reveal_strlit("cast");
    reveal_strlit("alloca");
    assert("get"@[0] == 'g');
    assert("get"@.len() == 3);
    assert("+"@.len() == 1 && "-"@.len() == 1 && "*"@.len() == 1 && "/"@.len() == 1);
    assert("%"@.len() == 1 && "syscall"@.len() == 7 && "cast"@.len() == 4);
    assert("alloca"@.len() == 6);
}

} // verus!
