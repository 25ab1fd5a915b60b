//! Which expressions have a translation.

use vstd::prelude::*;

use crate::ast::{type_of, LValue, SExpr, Type};
use crate::env::{number_limit, resolve, variable_limit, variables, EnvView, Scope};
use crate::ir::{all_ir, byte_size, ir_type, IrType};
use crate::lower::{
    assigned, attribute_offset, builtin, env_after, env_after_all, env_after_arms,
    env_after_place, ir, Builtin,
};
use crate::mangle::has_symbol;

verus! {

/// The machine-level type of the value of an expression.
pub open spec fn value_type(e: SExpr<'_>, env: EnvView) -> IrType
    decreases e,
{
    match e {
        SExpr::Float { meta, .. } => if meta.type_ is F32 {
            IrType::F32
        } else {
            IrType::F64
        },
        SExpr::Symbol { meta, value } => match resolve(env.scopes, value@) {
            Some(v) => env.types[v]->0,
            None => ir(meta.type_),
        },
        SExpr::Sequence { meta, values } => if values@.len() > 0 {
            value_type(
                values@[values@.len() - 1],
                env_after_all(values@.drop_last(), env.enter()),
            )
        } else {
            ir(meta.type_)
        },
        SExpr::Type { value, .. } => value_type(*value, env),
        SExpr::FuncCall { meta, func, values } => match *func {
            SExpr::Symbol { meta: callee, value: name } => match builtin(name@) {
                Some(Builtin::Syscall) => IrType::I64,
                Some(Builtin::Less) => IrType::B1,
                Some(Builtin::Alloca) | Some(Builtin::Get) => ir(meta.type_),
                Some(_) => if values@.len() > 0 {
                    value_type(values@[0], env)
                } else {
                    ir(meta.type_)
                },
                None => ir(*callee.type_->Function_1),
            },
            _ => ir(meta.type_),
        },
        SExpr::Assign { value, .. } => value_type(*value, env),
        _ => ir(type_of(e)),
    }
}

/// Whether a name of a type can be looked up among the functions of the program.
pub open spec fn is_function(t: Type<'_>, name: Seq<char>) -> bool {
    t matches Type::Function(a, r) && all_ir(a@) && ir_type(*r) is Some && has_symbol(name, a@, *r)
}

/// Whether an address of a type can be called.
pub open spec fn is_callable(t: Type<'_>) -> bool {
    t matches Type::Function(a, r) && all_ir(a@) && ir_type(*r) is Some
}

/// Whether a built-in function takes a number of arguments, of which the first
/// is of type `arg`, and gives a value of type `t`.
pub open spec fn takes(op: Builtin, t: Type<'_>, arg: Type<'_>, count: nat) -> bool {
    match op {
        Builtin::Syscall => true,
        Builtin::Cast => count >= 1 && (t is Pointer && arg is Int || t is Int && arg is Pointer),
        Builtin::Alloca => match t {
            Type::Pointer(_, v) => byte_size(*v) is Some,
            Type::Slice(_, v) => byte_size(*v) is Some && count >= 1,
            _ => false,
        },
        Builtin::Get => count >= 2 && byte_size(t) is Some,
        _ => count >= 2,
    }
}

/// Whether a built-in function takes a first argument with a value of a
/// machine-level type: bits are those of integers and truth values, and a slice
/// is known by its address.
pub open spec fn suits(op: Builtin, first: IrType) -> bool {
    match op {
        Builtin::And | Builtin::Or | Builtin::Xor => first != IrType::F32 && first != IrType::F64,
        Builtin::Get => first == IrType::I64,
        _ => true,
    }
}

/// Whether an expression has a translation, with the variables `env`, inside a loop or not.
pub open spec fn translatable(e: SExpr<'_>, env: EnvView, in_loop: bool) -> bool
    decreases e,
{
    match e {
        SExpr::Int { meta, .. } => ir_type(meta.type_) is Some,
        SExpr::Float { .. } => true,
        SExpr::Str { meta, .. } => ir_type(meta.type_) is Some && env.next() < usize::MAX,
        SExpr::Symbol { meta, value } => {
            resolve(env.scopes, value@) is Some || is_function(meta.type_, value@)
        },
        SExpr::Sequence { values, .. } => {
            values@.len() > 0 && all_translatable(values@, env.enter(), in_loop)
        },
        SExpr::Cond { meta, values, elsy } => {
            &&& !env.lone
            &&& ir_type(meta.type_) is Some
            &&& arms_translatable(values@, env, in_loop)
            &&& match elsy {
                Some(e) => translatable(*e, env_after_arms(values@, env).enter(), in_loop),
                None => true,
            }
        },
        SExpr::Loop { meta, value } => {
            &&& !env.lone
            &&& ir_type(meta.type_) is Some
            &&& translatable(*value, env.enter(), true)
        },
        SExpr::Break { meta, value } => {
            &&& in_loop
            &&& !env.lone
            &&& ir_type(meta.type_) is Some
            &&& match value {
                Some(e) => translatable(*e, env, in_loop),
                None => true,
            }
        },
        SExpr::Nil { meta } => ir_type(meta.type_) is Some,
        SExpr::Type { value, .. } => translatable(*value, env, in_loop),
        SExpr::FuncCall { meta, func, values } => {
            &&& all_translatable(values@, env, in_loop)
            &&& match *func {
                SExpr::Symbol { meta: callee, value: name } => match builtin(name@) {
                    Some(op) => {
                        &&& takes(op, meta.type_, type_of(values@[0]), values@.len())
                        &&& suits(op, value_type(values@[0], env))
                    },
                    None => match resolve(env_after_all(values@, env).scopes, name@) {
                        Some(_) => is_callable(callee.type_),
                        None => is_function(callee.type_, name@),
                    },
                },
                _ => false,
            }
        },
        SExpr::Declare { meta, value, .. } => {
            &&& ir_type(meta.type_) is Some
            &&& env.next() < number_limit()
            &&& env.lone || variables(env.types) < variable_limit()
            &&& translatable(*value, env.declare(ir(meta.type_)), in_loop)
            &&& value_type(*value, env.declare(ir(meta.type_))) == ir(meta.type_)
        },
        SExpr::Assign { lvalue, value, .. } => {
            &&& translatable(*value, env, in_loop)
            &&& match lvalue {
                LValue::Symbol(name) => {
                    let types = env_after(*value, env).types;
                    let var = assigned(env, name@);
                    0 <= var < types.len() && types[var] == Some(value_type(*value, env))
                },
                _ => place_translatable(lvalue, env_after(*value, env), in_loop),
            }
        },
        SExpr::Attribute { meta, top, attrs } => {
            &&& ir_type(meta.type_) is Some
            &&& translatable(*top, env, in_loop)
            &&& type_of(*top) is Slice
            &&& value_type(*top, env) == IrType::I64
            &&& attrs@.len() > 0
            &&& attribute_offset(attrs@[0]@) is Some
        },
        SExpr::FuncDef { .. } | SExpr::StructSet { .. } => false,
    }
}

/// Whether several expressions have a translation.
pub open spec fn all_translatable(es: Seq<SExpr<'_>>, env: EnvView, in_loop: bool) -> bool
    decreases es,
{
    es.len() == 0 || {
        &&& all_translatable(es.drop_last(), env, in_loop)
        &&& translatable(es[es.len() - 1], env_after_all(es.drop_last(), env), in_loop)
    }
}

/// Whether some conditions and their bodies have a translation.
pub open spec fn arms_translatable(
    arms: Seq<(SExpr<'_>, SExpr<'_>)>,
    env: EnvView,
    in_loop: bool,
) -> bool
    decreases arms,
{
    arms.len() == 0 || {
        let inner = env_after_arms(arms.drop_last(), env).enter();
        &&& arms_translatable(arms.drop_last(), env, in_loop)
        &&& translatable(arms[arms.len() - 1].0, inner, in_loop)
        &&& translatable(
            arms[arms.len() - 1].1,
            env_after(arms[arms.len() - 1].0, inner),
            in_loop,
        )
    }
}

/// Whether the address of a place has a translation.
pub open spec fn place_translatable(place: LValue<'_>, env: EnvView, in_loop: bool) -> bool
    decreases place,
{
    match place {
        LValue::Symbol(name) => {
            &&& resolve(env.scopes, name@) is Some
            &&& env.types[resolve(env.scopes, name@)->0] == Some(IrType::I64)
        },
        LValue::Attribute(..) => false,
        LValue::Deref(v) => place_translatable(*v, env, in_loop),
        LValue::Get(t, v, i) => {
            &&& byte_size(t) is Some
            &&& translatable(*i, env, in_loop)
            &&& place_translatable(*v, env_after(*i, env), in_loop)
        },
    }
}

/// Whether every name stands for a variable.
pub open spec fn sound(env: EnvView) -> bool {
    &&& env.scopes.len() > 0
    &&& forall|i: int| 0 <= i < env.scopes.len() ==> scope_sound(#[trigger] env.scopes[i], env.types)
}

/// Whether every name of a scope stands for a variable.
pub open spec fn scope_sound(scope: Scope, types: Seq<Option<IrType>>) -> bool {
    forall|name: Seq<char>| #[trigger]
        scope.contains_key(name) ==> 0 <= scope[name] < types.len() && types[scope[name]] is Some
}

/// Whether `b` holds the scopes of `a`, with at most more names in the innermost
/// one, and the numbers of `a`, with at most more of them.
pub open spec fn extends(a: EnvView, b: EnvView) -> bool {
    &&& a.scopes.len() == b.scopes.len()
    &&& a.scopes.len() > 0 ==> a.scopes.drop_last() == b.scopes.drop_last()
    &&& a.types.len() <= b.types.len()
    &&& a.types == b.types.take(a.types.len() as int)
    &&& a.lone == b.lone
}

/// A name that is found stands for a variable.
pub proof fn lemma_resolve(env: EnvView, name: Seq<char>)
    requires
        forall|i: int| 0 <= i < env.scopes.len() ==> scope_sound(#[trigger] env.scopes[i], env.types),
        resolve(env.scopes, name) is Some,
    ensures
        0 <= resolve(env.scopes, name)->0 < env.types.len(),
        env.types[resolve(env.scopes, name)->0] is Some,
    decreases env.scopes.len(),
{
    if env.scopes.len() > 0 && !env.scopes.last().contains_key(name) {
        lemma_resolve(EnvView { scopes: env.scopes.drop_last(), ..env }, name);
    }
}

proof fn lemma_extends_trans(a: EnvView, b: EnvView, c: EnvView)
    requires
        extends(a, b),
        extends(b, c),
    ensures
        extends(a, c),
{
    assert(a.types =~= c.types.take(a.types.len() as int)) by {
        assert forall|i: int| 0 <= i < a.types.len() implies a.types[i] == c.types[i] by {
            assert(b.types.take(a.types.len() as int)[i] == b.types[i]);
            assert(c.types.take(b.types.len() as int)[i] == c.types[i]);
        }
    }
}

/// Going into a scope and out of it again keeps the scopes.
proof fn lemma_scope(env: EnvView, inner: EnvView)
    requires
        sound(env),
        extends(env.enter(), inner),
        sound(inner),
    ensures
        sound(inner.leave()),
        extends(env, inner.leave()),
        inner.leave().scopes == env.scopes,
{
    assert(env.enter().scopes.drop_last() =~= env.scopes);
    assert forall|i: int| 0 <= i < env.scopes.len() implies scope_sound(
        #[trigger] inner.leave().scopes[i],
        inner.types,
    ) by {
        assert(inner.scopes[i] == inner.leave().scopes[i]);
    }
}

pub proof fn lemma_enter(env: EnvView)
    requires
        sound(env),
    ensures
        sound(env.enter()),
{
    let inner = env.enter();
    assert forall|i: int| 0 <= i < inner.scopes.len() implies scope_sound(
        #[trigger] inner.scopes[i],
        inner.types,
    ) by {
        if i < env.scopes.len() {
            assert(inner.scopes[i] == env.scopes[i]);
        }
    }
}

/// More numbers leave every name with its variable.
proof fn lemma_more_numbers(env: EnvView, t: Option<IrType>)
    requires
        sound(env),
    ensures
        sound(EnvView { types: env.types.push(t), ..env }),
        extends(env, EnvView { types: env.types.push(t), ..env }),
{
    let more = EnvView { types: env.types.push(t), ..env };
    assert(env.types =~= more.types.take(env.types.len() as int));
    assert forall|i: int| 0 <= i < more.scopes.len() implies scope_sound(
        #[trigger] more.scopes[i],
        more.types,
    ) by {
        assert(scope_sound(env.scopes[i], env.types));
    }
}

/// A new variable leaves every name with its variable.
pub proof fn lemma_declare(env: EnvView, t: IrType)
    requires
        sound(env),
    ensures
        sound(env.declare(t)),
        extends(env, env.declare(t)),
{
    lemma_more_numbers(env, Some(t));
}

pub proof fn lemma_bind(env: EnvView, name: Seq<char>, var: int)
    requires
        sound(env),
        0 <= var < env.types.len(),
        env.types[var] is Some,
    ensures
        sound(env.bind(name, var)),
        extends(env, env.bind(name, var)),
{
    let bound = env.bind(name, var);
    assert(bound.scopes.drop_last() =~= env.scopes.drop_last());
    assert(env.types =~= bound.types.take(env.types.len() as int));
    assert forall|i: int| 0 <= i < bound.scopes.len() implies scope_sound(
        #[trigger] bound.scopes[i],
        bound.types,
    ) by {
        assert(scope_sound(env.scopes[i], env.types));
    }
}

/// An expression leaves the scopes around it as they were: it adds at most
/// names to the innermost one, and every name keeps standing for a variable.
pub proof fn law_scopes_are_kept(e: SExpr<'_>, env: EnvView)
    requires
        sound(env),
    ensures
        sound(env_after(e, env)),
        extends(env, env_after(e, env)),
    decreases e,
{
    assert(env.types =~= env.types.take(env.types.len() as int));
    match e {
        SExpr::Str { .. } => {
            lemma_more_numbers(env, None);
        },
        SExpr::Sequence { values, .. } => {
            lemma_enter(env);
            lemma_all_kept(values@, env.enter());
            lemma_scope(env, env_after_all(values@, env.enter()));
        },
        SExpr::Cond { values, elsy, .. } => {
            lemma_arms_kept(values@, env);
            match elsy {
                Some(e) => {
                    let env1 = env_after_arms(values@, env);
                    lemma_enter(env1);
                    law_scopes_are_kept(*e, env1.enter());
                    lemma_scope(env1, env_after(*e, env1.enter()));
                    lemma_extends_trans(env, env1, env_after(*e, env1.enter()).leave());
                },
                None => {},
            }
        },
        SExpr::Loop { value, .. } => {
            lemma_enter(env);
            law_scopes_are_kept(*value, env.enter());
            lemma_scope(env, env_after(*value, env.enter()));
        },
        SExpr::Break { value, .. } => {
            match value {
                Some(e) => {
                    law_scopes_are_kept(*e, env);
                },
                None => {},
            }
        },
        SExpr::Type { value, .. } => {
            law_scopes_are_kept(*value, env);
        },
        SExpr::FuncCall { values, .. } => {
            lemma_all_kept(values@, env);
        },
        SExpr::Declare { meta, variable, value, .. } => {
            let t = ir(meta.type_);
            let inner = env_after(*value, env.declare(t));
            lemma_more_numbers(env, Some(t));
            law_scopes_are_kept(*value, env.declare(t));
            lemma_extends_trans(env, env.declare(t), inner);
            assert(inner.types.take(env.declare(t).types.len() as int)[env.next()] == inner.types[env.next()]);
            lemma_bind(inner, variable@, env.next());
            lemma_extends_trans(env, inner, inner.bind(variable@, env.next()));
        },
        SExpr::Assign { lvalue, value, .. } => {
            law_scopes_are_kept(*value, env);
            match lvalue {
                LValue::Symbol(_) => {},
                _ => {
                    let env1 = env_after(*value, env);
                    lemma_place_kept(lvalue, env1);
                    lemma_extends_trans(env, env1, env_after_place(lvalue, env1));
                },
            }
        },
        SExpr::Attribute { top, .. } => {
            law_scopes_are_kept(*top, env);
        },
        _ => {},
    }
}

pub proof fn lemma_all_kept(es: Seq<SExpr<'_>>, env: EnvView)
    requires
        sound(env),
    ensures
        sound(env_after_all(es, env)),
        extends(env, env_after_all(es, env)),
    decreases es,
{
    assert(env.types =~= env.types.take(env.types.len() as int));
    if es.len() > 0 {
        let before = env_after_all(es.drop_last(), env);
        lemma_all_kept(es.drop_last(), env);
        law_scopes_are_kept(es[es.len() - 1], before);
        lemma_extends_trans(env, before, env_after_all(es, env));
    }
}

pub proof fn lemma_arms_kept(arms: Seq<(SExpr<'_>, SExpr<'_>)>, env: EnvView)
    requires
        sound(env),
    ensures
        sound(env_after_arms(arms, env)),
        extends(env, env_after_arms(arms, env)),
    decreases arms,
{
    assert(env.types =~= env.types.take(env.types.len() as int));
    if arms.len() > 0 {
        let before = env_after_arms(arms.drop_last(), env);
        lemma_arms_kept(arms.drop_last(), env);
        lemma_enter(before);
        let (c, b) = arms[arms.len() - 1];
        let inner = env_after(c, before.enter());
        law_scopes_are_kept(c, before.enter());
        law_scopes_are_kept(b, inner);
        lemma_extends_trans(before.enter(), inner, env_after(b, inner));
        lemma_scope(before, env_after(b, inner));
        lemma_extends_trans(env, before, env_after(b, inner).leave());
    }
}

pub proof fn lemma_place_kept(place: LValue<'_>, env: EnvView)
    requires
        sound(env),
    ensures
        sound(env_after_place(place, env)),
        extends(env, env_after_place(place, env)),
    decreases place,
{
    assert(env.types =~= env.types.take(env.types.len() as int));
    match place {
        LValue::Symbol(_) | LValue::Attribute(..) => {},
        LValue::Deref(v) => {
            lemma_place_kept(*v, env);
        },
        LValue::Get(_, v, i) => {
            let env1 = env_after(*i, env);
            law_scopes_are_kept(*i, env);
            lemma_place_kept(*v, env1);
            lemma_extends_trans(env, env1, env_after_place(*v, env1));
        },
    }
}

} // verus!
