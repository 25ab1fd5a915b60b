//! Which expressions make sense, and that these have a translation.

use vstd::prelude::*;

use crate::ast::{type_of, LValue, SExpr, Type};
use crate::env::{resolve, variable_limit, variables, EnvView};
use crate::function::{
    arg_types, body_env, function_translatable, keeps_to_one_block, lemma_start_env, lower_function,
    start_env,
};
use crate::ir::{all_ir, byte_size, ir_type, IrType};
use crate::lower::{builtin, env_after, env_after_all, env_after_arms, env_after_place, ir, Builtin};
use crate::mangle::has_symbol;
use crate::meaning::{field, fractional};
use crate::size::{fits, plan_size};
use crate::translatable::{
    all_translatable, arms_translatable, law_scopes_are_kept, lemma_all_kept, lemma_arms_kept,
    lemma_declare, lemma_enter, lemma_place_kept, lemma_resolve, place_translatable, scope_sound,
    sound, translatable, value_type,
};

verus! {

/// The names that are in scope, with what holds their values.
pub type Kinds = Seq<Map<Seq<char>, IrType>>;

/// What holds the value of a name, if the name is in scope.
pub open spec fn kind_of(ctx: Kinds, name: Seq<char>) -> Option<IrType>
    decreases ctx.len(),
{
    if ctx.len() == 0 {
        None
    } else if ctx.last().contains_key(name) {
        Some(ctx.last()[name])
    } else {
        kind_of(ctx.drop_last(), name)
    }
}

/// With one more scope.
pub open spec fn within(ctx: Kinds) -> Kinds {
    ctx.push(Map::empty())
}

/// With one more name in the innermost scope.
pub open spec fn with_name(ctx: Kinds, name: Seq<char>, k: IrType) -> Kinds {
    ctx.update(ctx.len() - 1, ctx.last().insert(name, k))
}

/// What a call gives, once it is known what holds its arguments: `t` is the type
/// of the call, `arg` that of the first argument, and `callee` that of the name.
pub open spec fn typed_call(
    t: Type<'_>,
    arg: Type<'_>,
    callee: Type<'_>,
    name: Seq<char>,
    ks: Seq<IrType>,
    ctx: Kinds,
) -> Option<IrType> {
    if name == "+"@ || name == "-"@ || name == "*"@ || name == "/"@ || name == "%"@ || name == "<<"@
        || name == ">>"@ {
        if ks.len() >= 2 {
            Some(ks[0])
        } else {
            None
        }
    } else if name == "&"@ || name == "|"@ || name == "^"@ {
        if ks.len() >= 2 && !fractional(ks[0]) {
            Some(ks[0])
        } else {
            None
        }
    } else if name == "<"@ {
        if ks.len() >= 2 {
            Some(IrType::B1)
        } else {
            None
        }
    } else if name == "syscall"@ {
        Some(IrType::I64)
    } else if name == "cast"@ {
        if ks.len() >= 1 && (t is Pointer && arg is Int || t is Int && arg is Pointer) {
            Some(ks[0])
        } else {
            None
        }
    } else if name == "alloca"@ {
        match t {
            Type::Pointer(_, v) => if byte_size(*v) is Some {
                Some(IrType::I64)
            } else {
                None
            },
            Type::Slice(_, v) => if byte_size(*v) is Some && ks.len() >= 1 {
                Some(IrType::I64)
            } else {
                None
            },
            _ => None,
        }
    } else if name == "get"@ {
        if ks.len() >= 2 && ks[0] is I64 && byte_size(t) is Some {
            ir_type(t)
        } else {
            None
        }
    } else {
        match callee {
            Type::Function(a, r) => if all_ir(a@) && (kind_of(ctx, name) is Some || has_symbol(
                name,
                a@,
                *r,
            )) {
                ir_type(*r)
            } else {
                None
            },
            _ => None,
        }
    }
}

/// What holds the value of an expression, and the names that are in scope after it,
/// if it makes sense.
pub open spec fn typed(e: SExpr<'_>, ctx: Kinds, in_loop: bool) -> Option<(IrType, Kinds)>
    decreases e,
{
    match e {
        SExpr::Int { meta, .. } => match ir_type(meta.type_) {
            Some(k) => Some((k, ctx)),
            None => None,
        },
        SExpr::Float { meta, .. } => match meta.type_ {
            Type::F32 => Some((IrType::F32, ctx)),
            Type::F64 => Some((IrType::F64, ctx)),
            _ => None,
        },
        SExpr::Str { meta, .. } => if meta.type_ is Slice {
            Some((IrType::I64, ctx))
        } else {
            None
        },
        SExpr::Symbol { meta, value } => match kind_of(ctx, value@) {
            Some(k) => Some((k, ctx)),
            None => match meta.type_ {
                Type::Function(a, r) => if all_ir(a@) && ir_type(*r) is Some && has_symbol(
                    value@,
                    a@,
                    *r,
                ) {
                    Some((IrType::I64, ctx))
                } else {
                    None
                },
                _ => None,
            },
        },
        SExpr::Sequence { values, .. } => match typed_all(values@, within(ctx), in_loop) {
            Some((ks, _)) => if ks.len() > 0 {
                Some((ks.last(), ctx))
            } else {
                None
            },
            None => None,
        },
        SExpr::Cond { meta, values, elsy } => match (
            ir_type(meta.type_),
            typed_arms(values@, ctx, in_loop),
            elsy,
        ) {
            (Some(k), true, Some(e)) => if typed(*e, within(ctx), in_loop) is Some {
                Some((k, ctx))
            } else {
                None
            },
            (Some(k), true, None) => Some((k, ctx)),
            _ => None,
        },
        SExpr::Loop { meta, value } => match (
            ir_type(meta.type_),
            typed(*value, within(ctx), true),
        ) {
            (Some(k), Some(_)) => Some((k, ctx)),
            _ => None,
        },
        SExpr::Break { meta, value } => match (in_loop, ir_type(meta.type_), value) {
            (true, Some(k), Some(e)) => match typed(*e, ctx, true) {
                Some((_, after)) => Some((k, after)),
                None => None,
            },
            (true, Some(k), None) => Some((k, ctx)),
            _ => None,
        },
        SExpr::Nil { meta } => match ir_type(meta.type_) {
            Some(k) => Some((k, ctx)),
            None => None,
        },
        SExpr::Type { value, .. } => typed(*value, ctx, in_loop),
        SExpr::FuncCall { meta, func, values } => match typed_all(values@, ctx, in_loop) {
            Some((ks, after)) => match *func {
                SExpr::Symbol { meta: callee, value: name } => match typed_call(
                    meta.type_,
                    type_of(values@[0]),
                    callee.type_,
                    name@,
                    ks,
                    after,
                ) {
                    Some(k) => Some((k, after)),
                    None => None,
                },
                _ => None,
            },
            None => None,
        },
        SExpr::Declare { meta, variable, value, .. } => match typed(*value, ctx, in_loop) {
            Some((k, after)) => if ir_type(meta.type_) == Some(k) {
                Some((k, with_name(after, variable@, k)))
            } else {
                None
            },
            None => None,
        },
        SExpr::Assign { lvalue, value, .. } => match typed(*value, ctx, in_loop) {
            Some((k, after)) => match lvalue {
                LValue::Symbol(name) => if kind_of(ctx, name@) == Some(k) {
                    Some((k, after))
                } else {
                    None
                },
                _ => match typed_place(lvalue, after, in_loop) {
                    Some(last) => Some((k, last)),
                    None => None,
                },
            },
            None => None,
        },
        SExpr::Attribute { meta, top, attrs } => match typed(*top, ctx, in_loop) {
            Some((IrType::I64, after)) => if type_of(*top) is Slice && ir_type(meta.type_) is Some
                && attrs@.len() > 0 && field(attrs@[0]@) is Some {
                Some((ir(meta.type_), after))
            } else {
                None
            },
            _ => None,
        },
        _ => None,
    }
}

/// The same, of several expressions.
pub open spec fn typed_all(es: Seq<SExpr<'_>>, ctx: Kinds, in_loop: bool) -> Option<
    (Seq<IrType>, Kinds),
>
    decreases es,
{
    if es.len() == 0 {
        Some((seq![], ctx))
    } else {
        match typed_all(es.drop_last(), ctx, in_loop) {
            Some((ks, after)) => match typed(es[es.len() - 1], after, in_loop) {
                Some((k, last)) => Some((ks.push(k), last)),
                None => None,
            },
            None => None,
        }
    }
}

/// Whether conditions and their bodies make sense.
pub open spec fn typed_arms(
    arms: Seq<(SExpr<'_>, SExpr<'_>)>,
    ctx: Kinds,
    in_loop: bool,
) -> bool
    decreases arms,
{
    arms.len() == 0 || {
        &&& typed_arms(arms.drop_last(), ctx, in_loop)
        &&& typed(arms[arms.len() - 1].0, within(ctx), in_loop) matches Some((_, after))
            && typed(arms[arms.len() - 1].1, after, in_loop) is Some
    }
}

/// The names that are in scope after a place that holds an address, if it makes sense.
pub open spec fn typed_place(place: LValue<'_>, ctx: Kinds, in_loop: bool) -> Option<Kinds>
    decreases place,
{
    match place {
        LValue::Symbol(name) => if kind_of(ctx, name@) == Some(IrType::I64) {
            Some(ctx)
        } else {
            None
        },
        LValue::Deref(v) => typed_place(*v, ctx, in_loop),
        LValue::Get(t, v, i) => match typed(*i, ctx, in_loop) {
            Some((_, after)) => if byte_size(t) is Some {
                typed_place(*v, after, in_loop)
            } else {
                None
            },
            None => None,
        },
        LValue::Attribute(..) => None,
    }
}

/// Whether a scope of variables has the names of another one, with variables of their kinds.
pub open spec fn scope_agrees(env: EnvView, ctx: Kinds, i: int) -> bool {
    &&& forall|a: Seq<char>| #[trigger] env.scopes[i].contains_key(a) <==> ctx[i].contains_key(a)
    &&& forall|a: Seq<char>| #[trigger]
        ctx[i].contains_key(a) ==> env.types[env.scopes[i][a]] == Some(ctx[i][a])
}

/// Whether every name in scope has a variable of its kind.
pub open spec fn agrees(env: EnvView, ctx: Kinds) -> bool {
    &&& env.scopes.len() == ctx.len()
    &&& forall|i: int| 0 <= i < ctx.len() ==> #[trigger] scope_agrees(env, ctx, i)
}

proof fn lemma_kind(env: EnvView, ctx: Kinds, name: Seq<char>)
    requires
        env.scopes.len() == ctx.len(),
        forall|i: int| 0 <= i < ctx.len() ==> #[trigger] scope_agrees(env, ctx, i),
    ensures
        resolve(env.scopes, name) is Some <==> kind_of(ctx, name) is Some,
        resolve(env.scopes, name) matches Some(v) ==> env.types[v] == kind_of(ctx, name),
    decreases ctx.len(),
{
    if ctx.len() > 0 {
        let n = ctx.len() - 1;
        assert(scope_agrees(env, ctx, n));
        if !ctx.last().contains_key(name) {
            let less = EnvView { scopes: env.scopes.drop_last(), ..env };
            assert forall|i: int| 0 <= i < n implies #[trigger] scope_agrees(
                less,
                ctx.drop_last(),
                i,
            ) by {
                assert(scope_agrees(env, ctx, i));
            }
            lemma_kind(less, ctx.drop_last(), name);
        }
    }
}

proof fn lemma_within(env: EnvView, ctx: Kinds)
    requires
        agrees(env, ctx),
    ensures
        agrees(env.enter(), within(ctx)),
{
    assert forall|i: int| 0 <= i < within(ctx).len() implies #[trigger] scope_agrees(
        env.enter(),
        within(ctx),
        i,
    ) by {
        if i < ctx.len() {
            assert(scope_agrees(env, ctx, i));
        }
    }
}

/// With the same scopes and more numbers, names keep their kinds.
proof fn lemma_more(env: EnvView, ctx: Kinds, later: EnvView)
    requires
        sound(env),
        agrees(env, ctx),
        later.scopes == env.scopes,
        env.types.len() <= later.types.len(),
        env.types == later.types.take(env.types.len() as int),
    ensures
        agrees(later, ctx),
{
    assert forall|i: int| 0 <= i < ctx.len() implies #[trigger] scope_agrees(later, ctx, i) by {
        assert(scope_agrees(env, ctx, i));
        assert forall|a: Seq<char>| #[trigger]
            ctx[i].contains_key(a) implies later.types[later.scopes[i][a]] == Some(ctx[i][a]) by {
            assert(env.scopes[i].contains_key(a));
            let v = env.scopes[i][a];
            assert(scope_sound(env.scopes[i], env.types));
            assert(later.types.take(env.types.len() as int)[v] == later.types[v]);
        }
    }
}

proof fn lemma_named(env: EnvView, ctx: Kinds, name: Seq<char>, var: int, k: IrType)
    requires
        agrees(env, ctx),
        ctx.len() > 0,
        env.types[var] == Some(k),
    ensures
        agrees(env.bind(name, var), with_name(ctx, name, k)),
{
    let (e, c) = (env.bind(name, var), with_name(ctx, name, k));
    assert forall|i: int| 0 <= i < c.len() implies #[trigger] scope_agrees(e, c, i) by {
        assert(scope_agrees(env, ctx, i));
    }
}

/// No more numbers are variables than there are numbers.
proof fn lemma_variables(types: Seq<Option<IrType>>)
    ensures
        variables(types) <= types.len(),
    decreases types.len(),
{
    if types.len() > 0 {
        lemma_variables(types.drop_last());
    }
}

/// An expression that makes sense has a translation, and its value is held by what
/// it should be: with at most as many variables and texts as there may be.
#[verifier::rlimit(60)]
pub proof fn law_typed_is_translatable(
    e: SExpr<'_>,
    env: EnvView,
    ctx: Kinds,
    in_loop: bool,
)
    requires
        sound(env),
        agrees(env, ctx),
        !env.lone,
        typed(e, ctx, in_loop) is Some,
        env_after(e, env).next() <= variable_limit(),
    ensures
        translatable(e, env, in_loop),
        value_type(e, env) == (typed(e, ctx, in_loop)->0).0,
        agrees(env_after(e, env), (typed(e, ctx, in_loop)->0).1),
    decreases e, 1nat,
{
    law_scopes_are_kept(e, env);
    match e {
        SExpr::Str { .. } => lemma_more(env, ctx, env.reserve()),
        SExpr::Symbol { value, .. } => lemma_kind(env, ctx, value@),
        SExpr::Sequence { values, .. } => {
            lemma_enter(env);
            lemma_within(env, ctx);
            lemma_all_kept(values@, env.enter());
            lemma_all_typed(values@, env.enter(), within(ctx), in_loop);
            assert(env_after(e, env).scopes =~= env.scopes) by {
                assert(env.enter().scopes.drop_last() =~= env.scopes);
            }
            lemma_more(env, ctx, env_after(e, env));
        },
        SExpr::Cond { meta, values, elsy } => lemma_cond_typed(e, env, ctx, in_loop),
        SExpr::Loop { value, .. } => {
            lemma_enter(env);
            lemma_within(env, ctx);
            law_scopes_are_kept(*value, env.enter());
            law_typed_is_translatable(*value, env.enter(), within(ctx), true);
            assert(env_after(e, env).scopes =~= env.scopes) by {
                assert(env.enter().scopes.drop_last() =~= env.scopes);
            }
            lemma_more(env, ctx, env_after(e, env));
        },
        SExpr::Break { value, .. } => match value {
            Some(e) => law_typed_is_translatable(*e, env, ctx, true),
            None => {},
        },
        SExpr::Type { value, .. } => law_typed_is_translatable(*value, env, ctx, in_loop),
        SExpr::FuncCall { meta, func, values } => {
            lemma_all_typed(values@, env, ctx, in_loop);
            lemma_call_typed(e, env, ctx, in_loop);
        },
        SExpr::Declare { meta, variable, value, .. } => {
            let t = ir(meta.type_);
            let env1 = env.declare(t);
            lemma_declare(env, t);
            lemma_more(env, ctx, env1);
            law_scopes_are_kept(*value, env1);
            law_typed_is_translatable(*value, env1, ctx, in_loop);
            lemma_variables(env.types);
            let env2 = env_after(*value, env1);
            assert(env2.types.take(env1.types.len() as int)[env.next()] == env2.types[env.next()]);
            lemma_named(
                env2,
                (typed(*value, ctx, in_loop)->0).1,
                variable@,
                env.next(),
                t,
            );
        },
        SExpr::Assign { lvalue, value, .. } => {
            law_scopes_are_kept(*value, env);
            let env1 = env_after(*value, env);
            match lvalue {
                LValue::Symbol(name) => {
                    law_typed_is_translatable(*value, env, ctx, in_loop);
                    lemma_kind(env, ctx, name@);
                    lemma_resolve(env, name@);
                    let v = resolve(env.scopes, name@)->0;
                    assert(env1.types.take(env.types.len() as int)[v] == env1.types[v]);
                },
                _ => {
                    lemma_place_kept(lvalue, env1);
                    law_typed_is_translatable(*value, env, ctx, in_loop);
                    lemma_place_typed(
                        lvalue,
                        env1,
                        (typed(*value, ctx, in_loop)->0).1,
                        in_loop,
                    );
                },
            }
        },
        SExpr::Attribute { top, .. } => law_typed_is_translatable(*top, env, ctx, in_loop),
        _ => {},
    }
}

proof fn lemma_cond_typed(e: SExpr<'_>, env: EnvView, ctx: Kinds, in_loop: bool)
    requires
        e is Cond,
        sound(env),
        agrees(env, ctx),
        !env.lone,
        typed(e, ctx, in_loop) is Some,
        env_after(e, env).next() <= variable_limit(),
    ensures
        translatable(e, env, in_loop),
        agrees(env_after(e, env), ctx),
    decreases e, 0nat,
{
    match e {
        SExpr::Cond { meta, values, elsy } => {
            let env1 = env_after_arms(values@, env);
            lemma_arms_kept(values@, env);
            match elsy {
                Some(e) => {
                    lemma_enter(env1);
                    law_scopes_are_kept(*e, env1.enter());
                    lemma_arms_typed(values@, env, ctx, in_loop);
                    lemma_within(env1, ctx);
                    law_typed_is_translatable(*e, env1.enter(), within(ctx), in_loop);
                    let later = env_after(*e, env1.enter()).leave();
                    assert(later.scopes =~= env1.scopes) by {
                        assert(env1.enter().scopes.drop_last() =~= env1.scopes);
                    }
                    lemma_more(env1, ctx, later);
                },
                None => lemma_arms_typed(values@, env, ctx, in_loop),
            }
        },
        _ => {},
    }
}

proof fn lemma_all_typed(es: Seq<SExpr<'_>>, env: EnvView, ctx: Kinds, in_loop: bool)
    requires
        sound(env),
        agrees(env, ctx),
        !env.lone,
        typed_all(es, ctx, in_loop) is Some,
        env_after_all(es, env).next() <= variable_limit(),
    ensures
        all_translatable(es, env, in_loop),
        (typed_all(es, ctx, in_loop)->0).0.len() == es.len(),
        es.len() > 0 ==> value_type(es[0], env) == (typed_all(es, ctx, in_loop)->0).0[0],
        es.len() > 0 ==> value_type(
            es[es.len() - 1],
            env_after_all(es.drop_last(), env),
        ) == (typed_all(es, ctx, in_loop)->0).0.last(),
        agrees(env_after_all(es, env), (typed_all(es, ctx, in_loop)->0).1),
    decreases es, 0nat,
{
    if es.len() > 0 {
        let less = es.drop_last();
        let env1 = env_after_all(less, env);
        lemma_all_kept(less, env);
        law_scopes_are_kept(es[es.len() - 1], env1);
        lemma_all_typed(less, env, ctx, in_loop);
        law_typed_is_translatable(
            es[es.len() - 1],
            env1,
            (typed_all(less, ctx, in_loop)->0).1,
            in_loop,
        );
        if es.len() > 1 {
            assert(less[0] == es[0]);
        }
    }
}

proof fn lemma_arms_typed(
    arms: Seq<(SExpr<'_>, SExpr<'_>)>,
    env: EnvView,
    ctx: Kinds,
    in_loop: bool,
)
    requires
        sound(env),
        agrees(env, ctx),
        !env.lone,
        typed_arms(arms, ctx, in_loop),
        env_after_arms(arms, env).next() <= variable_limit(),
    ensures
        arms_translatable(arms, env, in_loop),
        agrees(env_after_arms(arms, env), ctx),
    decreases arms, 0nat,
{
    if arms.len() > 0 {
        let less = arms.drop_last();
        let i = arms.len() - 1;
        let env1 = env_after_arms(less, env);
        lemma_arms_kept(less, env);
        lemma_enter(env1);
        law_scopes_are_kept(arms[i].0, env1.enter());
        let env2 = env_after(arms[i].0, env1.enter());
        law_scopes_are_kept(arms[i].1, env2);
        let env3 = env_after(arms[i].1, env2);
        lemma_arms_typed(less, env, ctx, in_loop);
        lemma_within(env1, ctx);
        law_typed_is_translatable(arms[i].0, env1.enter(), within(ctx), in_loop);
        law_typed_is_translatable(
            arms[i].1,
            env2,
            (typed(arms[i].0, within(ctx), in_loop)->0).1,
            in_loop,
        );
        assert(env3.leave().scopes =~= env1.scopes) by {
            assert(env1.enter().scopes.drop_last() =~= env1.scopes);
        }
        assert(env1.types =~= env3.types.take(env1.types.len() as int)) by {
            assert forall|j: int| 0 <= j < env1.types.len() implies env1.types[j]
                == env3.types[j] by {
                assert(env2.types.take(env1.types.len() as int)[j] == env2.types[j]);
                assert(env3.types.take(env2.types.len() as int)[j] == env3.types[j]);
            }
        }
        lemma_more(env1, ctx, env3.leave());
    }
}

proof fn lemma_place_typed(place: LValue<'_>, env: EnvView, ctx: Kinds, in_loop: bool)
    requires
        sound(env),
        agrees(env, ctx),
        !env.lone,
        typed_place(place, ctx, in_loop) is Some,
        env_after_place(place, env).next() <= variable_limit(),
    ensures
        place_translatable(place, env, in_loop),
        agrees(env_after_place(place, env), typed_place(place, ctx, in_loop)->0),
    decreases place, 0nat,
{
    match place {
        LValue::Symbol(name) => lemma_kind(env, ctx, name@),
        LValue::Deref(v) => lemma_place_typed(*v, env, ctx, in_loop),
        LValue::Get(t, v, i) => {
            law_scopes_are_kept(*i, env);
            let env1 = env_after(*i, env);
            lemma_place_kept(*v, env1);
            law_typed_is_translatable(*i, env, ctx, in_loop);
            lemma_place_typed(*v, env1, (typed(*i, ctx, in_loop)->0).1, in_loop);
        },
        _ => {},
    }
}

proof fn lemma_call_typed(e: SExpr<'_>, env: EnvView, ctx: Kinds, in_loop: bool)
    requires
        e is FuncCall,
        typed(e, ctx, in_loop) is Some,
        all_translatable(e->FuncCall_values@, env, in_loop),
        (typed_all(e->FuncCall_values@, ctx, in_loop)->0).0.len() == e->FuncCall_values@.len(),
        e->FuncCall_values@.len() > 0 ==> value_type(e->FuncCall_values@[0], env) == (typed_all(
            e->FuncCall_values@,
            ctx,
            in_loop,
        )->0).0[0],
        agrees(
            env_after_all(e->FuncCall_values@, env),
            (typed_all(e->FuncCall_values@, ctx, in_loop)->0).1,
        ),
    ensures
        translatable(e, env, in_loop),
        value_type(e, env) == (typed(e, ctx, in_loop)->0).0,
{
    reveal_strlit("+");
    reveal_strlit("-");
    reveal_strlit("*");
    reveal_strlit("/");
    reveal_strlit("%");
    reveal_strlit("<<");
    reveal_strlit(">>");
    reveal_strlit("&");
    reveal_strlit("|");
    reveal_strlit("^");
    reveal_strlit("<");
    reveal_strlit("syscall");
    reveal_strlit("cast");
    reveal_strlit("alloca");
    reveal_strlit("get");
    match e {
        SExpr::FuncCall { meta, func, values } => match *func {
            SExpr::Symbol { meta: callee, value: name } => {
                let env1 = env_after_all(values@, env);
                let after = (typed_all(values@, ctx, in_loop)->0).1;
                lemma_kind(env1, after, name@);
                lemma_operator_names();
            },
            _ => {},
        },
        _ => {},
    }
}

/// The names of built-in functions differ.
proof fn lemma_operator_names()
    ensures
        builtin("+"@) == Some(Builtin::Add),
        builtin("-"@) == Some(Builtin::Sub),
        builtin("*"@) == Some(Builtin::Mul),
        builtin("/"@) == Some(Builtin::Div),
        builtin("%"@) == Some(Builtin::Rem),
        builtin("<<"@) == Some(Builtin::Shl),
        builtin(">>"@) == Some(Builtin::Shr),
        builtin("&"@) == Some(Builtin::And),
        builtin("|"@) == Some(Builtin::Or),
        builtin("^"@) == Some(Builtin::Xor),
        builtin("<"@) == Some(Builtin::Less),
        builtin("syscall"@) == Some(Builtin::Syscall),
        builtin("cast"@) == Some(Builtin::Cast),
        builtin("alloca"@) == Some(Builtin::Alloca),
        builtin("get"@) == Some(Builtin::Get),
{
    reveal_strlit("+");
    reveal_strlit("-");
    reveal_strlit("*");
    reveal_strlit("/");
    reveal_strlit("%");
    reveal_strlit("<<");
    reveal_strlit(">>");
    reveal_strlit("&");
    reveal_strlit("|");
    reveal_strlit("^");
    reveal_strlit("<");
    reveal_strlit("syscall");
    reveal_strlit("cast");
    reveal_strlit("alloca");
    reveal_strlit("get");
    assert("+"@[0] == '+' && "-"@[0] == '-' && "*"@[0] == '*' && "/"@[0] == '/' && "%"@[0] == '%');
    assert("<<"@[0] == '<' && ">>"@[0] == '>' && "&"@[0] == '&' && "|"@[0] == '|');
    assert("^"@[0] == '^' && "<"@[0] == '<' && "<"@.len() == 1 && "<<"@.len() == 2);
    assert("syscall"@[0] == 's' && "cast"@[0] == 'c' && "alloca"@[0] == 'a' && "get"@[0] == 'g');
}

/// What holds the parameters of a function.
pub open spec fn parameter_kinds(args: Seq<(&str, Type<'_>)>) -> Kinds
    decreases args.len(),
{
    if args.len() == 0 {
        seq![Map::empty()]
    } else {
        with_name(
            parameter_kinds(args.drop_last()),
            args.last().0@,
            ir(args.last().1),
        )
    }
}

proof fn lemma_parameters(args: Seq<(&str, Type<'_>)>, lone: bool)
    ensures
        agrees(start_env(args, lone), parameter_kinds(args)),
        parameter_kinds(args).len() == 1,
    decreases args.len(),
{
    if args.len() > 0 {
        let less = args.drop_last();
        lemma_parameters(less, lone);
        lemma_start_env(less, lone);
        let env = start_env(less, lone);
        let t = ir(args.last().1);
        lemma_declare(env, t);
        lemma_more(env, parameter_kinds(less), env.declare(t));
        lemma_named(env.declare(t), parameter_kinds(less), args.last().0@, env.next(), t);
    }
}

/// A function whose body makes sense has a translation, unless it is too large: its
/// types are ones that values have, and it has a symbol.
pub proof fn law_typed_functions_are_translatable(
    name: Seq<char>,
    args: Seq<(&str, Type<'_>)>,
    ret: Type<'_>,
    expr: SExpr<'_>,
)
    requires
        all_ir(arg_types(args)),
        ir_type(ret) is Some,
        has_symbol(name, arg_types(args), ret),
        typed(expr, parameter_kinds(args), false) is Some,
        env_after(expr, start_env(args, false)).next() <= variable_limit(),
        fits(plan_size(lower_function(args, ret, expr))),
    ensures
        function_translatable(name, args, ret, expr),
{
    let env = start_env(args, false);
    lemma_parameters(args, false);
    lemma_start_env(args, false);
    law_scopes_are_kept(expr, env);
    law_typed_is_translatable(expr, env, parameter_kinds(args), false);
    if keeps_to_one_block(args, expr) {
        assert(body_env(args, expr) == start_env(args, true));
    }
}

} // verus!
