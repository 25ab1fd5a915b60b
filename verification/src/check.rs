//! Whether code can be made for an expression, found out before it is made.

use vstd::prelude::*;

use crate::ast::{type_of, LValue, SExpr, Type};
use crate::env::{resolve, Env, NUMBER_LIMIT, VARIABLE_LIMIT};
use crate::function::{arg_types, function_translatable, lemma_start_env, start_env};
use crate::generator::{compilable, Generator};
use crate::ir::{all_ir, byte_size, ir_type, IrType};
use crate::lower::{
    env_after, env_after_all, env_after_arms, env_after_place, find_builtin, ir, Builtin,
};
use crate::mangle::{all_spellable, spellable};
use crate::size::plan_fits;
use crate::text::same_text;
use crate::translatable::{
    all_translatable, arms_translatable, is_callable, is_function, law_scopes_are_kept,
    lemma_all_kept, lemma_arms_kept, lemma_declare, lemma_enter, lemma_resolve,
    place_translatable, sound, suits, takes, translatable, value_type,
};
use crate::translate::{lemma_all_prefix, lemma_arms_prefix};

verus! {

/// The machine-level type that holds a value of a type, if there is one.
fn find_ir(t: &Type<'_>) -> (r: Option<IrType>)
    ensures
        r == ir_type(*t),
{
    match t {
        Type::Int(_, width) => {
            let w = *width;
            if w == 1 || w == 8 || w == 16 || w == 32 || w == 64 {
                Some(Generator::convert_type_to_type(t))
            } else {
                None
            }
        },
        Type::Tuple(v) => if v.len() == 0 {
            Some(IrType::B1)
        } else {
            None
        },
        Type::Struct(_, _) => None,
        Type::Generic(_) => None,
        _ => Some(Generator::convert_type_to_type(t)),
    }
}

fn all_have_ir(ts: &Vec<Type<'_>>) -> (r: bool)
    ensures
        r == all_ir(ts@),
{
    let mut i: usize = 0;
    while i < ts.len()
        invariant
            i <= ts.len(),
            forall|j: int| 0 <= j < i ==> ir_type(#[trigger] ts@[j]) is Some,
        decreases ts.len() - i,
    {
        if find_ir(&ts[i]).is_none() {
            assert(ir_type(ts@[i as int]) is None);
            return false;
        }
        i += 1;
    }
    true
}

fn has_size(t: &Type<'_>) -> (r: bool)
    ensures
        r == (byte_size(*t) is Some),
{
    match t {
        Type::Function(_, _) => false,
        _ => find_ir(t).is_some(),
    }
}

fn is_spellable(t: &Type<'_>) -> (r: bool)
    ensures
        r == spellable(*t),
    decreases t,
{
    match t {
        Type::Tuple(v) => v.len() == 0,
        Type::Pointer(_, t) => is_spellable(t),
        Type::Slice(_, t) => is_spellable(t),
        Type::Function(a, r) => all_are_spellable(a) && is_spellable(r),
        Type::Struct(_, _) => false,
        Type::Generic(_) => false,
        _ => true,
    }
}

fn all_are_spellable(ts: &Vec<Type<'_>>) -> (r: bool)
    ensures
        r == all_spellable(ts@),
    decreases ts,
{
    let mut i: usize = 0;
    assert(ts@.skip(0) =~= ts@);
    while i < ts.len()
        invariant
            i <= ts.len(),
            all_spellable(ts@) == all_spellable(ts@.skip(i as int)),
        decreases ts.len() - i,
    {
        assert(ts@.skip(i as int).drop_first() =~= ts@.skip(i + 1));
        assert(ts@.skip(i as int)[0] == ts@[i as int]);
        if !is_spellable(&ts[i]) {
            return false;
        }
        i += 1;
    }
    true
}

/// Whether an address of a type can be called.
fn can_call(t: &Type<'_>) -> (r: bool)
    ensures
        r == is_callable(*t),
{
    match t {
        Type::Function(a, r) => all_have_ir(a) && find_ir(r).is_some(),
        _ => false,
    }
}

/// Whether a name of a type can be looked up among the functions of the program.
fn can_look_up(t: &Type<'_>, name: &str) -> (r: bool)
    ensures
        r == is_function(*t, name@),
{
    can_call(t) && match t {
        Type::Function(a, r) => {
            same_text(name, "main") || all_are_spellable(a) && is_spellable(r)
        },
        _ => false,
    }
}

/// Whether a built-in function can be called.
fn can_call_builtin(op: Builtin, t: &Type<'_>, values: &Vec<SExpr<'_>>) -> (r: bool)
    ensures
        r == takes(op, *t, type_of(values@[0]), values@.len()),
{
    match op {
        Builtin::Syscall => true,
        Builtin::Cast => values.len() >= 1 && match (t, &values[0].meta().type_) {
            (Type::Pointer(_, _), Type::Int(_, _)) => true,
            (Type::Int(_, _), Type::Pointer(_, _)) => true,
            _ => false,
        },
        Builtin::Alloca => match t {
            Type::Pointer(_, v) => has_size(v),
            Type::Slice(_, v) => has_size(v) && values.len() >= 1,
            _ => false,
        },
        Builtin::Get => values.len() >= 2 && has_size(t),
        _ => values.len() >= 2,
    }
}

/// Whether a built-in function takes a first argument with a value of a
/// machine-level type.
fn can_take(op: Builtin, first: IrType) -> (r: bool)
    ensures
        r == suits(op, first),
{
    match op {
        Builtin::And => first != IrType::F32 && first != IrType::F64,
        Builtin::Or => first != IrType::F32 && first != IrType::F64,
        Builtin::Xor => first != IrType::F32 && first != IrType::F64,
        Builtin::Get => first == IrType::I64,
        _ => true,
    }
}

/// The machine-level type of the value of an expression, if it has a
/// translation; its variables are then added to those that there are.
#[verifier::rlimit(40)]
#[verifier::spinoff_prover]
fn check_expr<'a>(sexpr: &SExpr<'a>, env: &mut Env<'a>, in_loop: bool, lone: bool) -> (r: Option<
    IrType,
>)
    requires
        sound(old(env)@),
        old(env)@.lone == lone,
    ensures
        r is Some <==> translatable(*sexpr, old(env)@, in_loop),
        r matches Some(t) ==> t == value_type(*sexpr, old(env)@) && final(env)@ == env_after(
            *sexpr,
            old(env)@,
        ),
    decreases sexpr,
{
    match sexpr {
        SExpr::Int { meta, .. } => find_ir(&meta.type_),
        SExpr::Float { meta, .. } => match &meta.type_ {
            Type::F32 => Some(IrType::F32),
            _ => Some(IrType::F64),
        },
        SExpr::Str { meta, .. } => {
            if env.next() < usize::MAX {
                env.reserve();
                find_ir(&meta.type_)
            } else {
                None
            }
        },
        SExpr::Symbol { meta, value } => match env.resolve(*value) {
            Some(v) => {
                proof {
                    lemma_resolve(env@, value@);
                }
                env.type_of(v)
            },
            None => if can_look_up(&meta.type_, *value) {
                find_ir(&meta.type_)
            } else {
                None
            },
        },
        SExpr::Sequence { values, .. } => {
            if values.len() == 0 {
                return None;
            }
            proof {
                lemma_enter(env@);
                lemma_all_kept(values@, env@.enter());
            }
            env.enter();
            match check_all(values, env, in_loop, lone) {
                Some(ts) => {
                    env.leave();
                    assert(values@.take(values@.len() - 1) =~= values@.drop_last());
                    Some(ts[ts.len() - 1])
                },
                None => None,
            }
        },
        SExpr::Cond { meta, values, elsy } => {
            if lone {
                return None;
            }
            proof {
                lemma_arms_kept(values@, env@);
            }
            if !check_arms(values, env, in_loop, lone) {
                return None;
            }
            match elsy {
                Some(e) => {
                    proof {
                        lemma_enter(env@);
                        law_scopes_are_kept(**e, env@.enter());
                    }
                    env.enter();
                    if check_expr(&**e, env, in_loop, lone).is_none() {
                        return None;
                    }
                    env.leave();
                },
                None => {},
            }
            find_ir(&meta.type_)
        },
        SExpr::Loop { meta, value } => {
            if lone {
                return None;
            }
            proof {
                lemma_enter(env@);
                law_scopes_are_kept(**value, env@.enter());
            }
            env.enter();
            if check_expr(&**value, env, true, lone).is_none() {
                return None;
            }
            env.leave();
            find_ir(&meta.type_)
        },
        SExpr::Break { meta, value } => {
            if !in_loop || lone {
                return None;
            }
            match value {
                Some(e) => {
                    if check_expr(&**e, env, in_loop, lone).is_none() {
                        return None;
                    }
                },
                None => {},
            }
            find_ir(&meta.type_)
        },
        SExpr::Nil { meta } => find_ir(&meta.type_),
        SExpr::Type { value, .. } => check_expr(&**value, env, in_loop, lone),
        SExpr::FuncCall { meta, func, values } => {
            let ts = match check_all(values, env, in_loop, lone) {
                Some(ts) => ts,
                None => return None,
            };
            assert(values@.take(0) =~= seq![]);
            match &**func {
                SExpr::Symbol { meta: callee, value: name } => match find_builtin(*name) {
                    Some(op) => {
                        if !can_call_builtin(op, &meta.type_, values) {
                            return None;
                        }
                        if values.len() > 0 && !can_take(op, ts[0]) {
                            return None;
                        }
                        match op {
                            Builtin::Syscall => Some(IrType::I64),
                            Builtin::Less => Some(IrType::B1),
                            Builtin::Alloca => find_ir(&meta.type_),
                            Builtin::Get => find_ir(&meta.type_),
                            _ => Some(ts[0]),
                        }
                    },
                    None => {
                        let found = match env.resolve(*name) {
                            Some(_) => can_call(&callee.type_),
                            None => can_look_up(&callee.type_, *name),
                        };
                        if !found {
                            return None;
                        }
                        match &callee.type_ {
                            Type::Function(_, r) => find_ir(r),
                            _ => None,
                        }
                    },
                },
                _ => None,
            }
        },
        SExpr::Declare { meta, variable, value, .. } => {
            let t = match find_ir(&meta.type_) {
                Some(t) => t,
                None => return None,
            };
            if env.next() >= NUMBER_LIMIT || !(lone || env.variables() < VARIABLE_LIMIT) {
                return None;
            }
            proof {
                lemma_declare(env@, t);
                law_scopes_are_kept(**value, env@.declare(t));
            }
            let var = env.declare(t);
            match check_expr(&**value, env, in_loop, lone) {
                Some(v) => if v == t {
                    env.bind(*variable, var);
                    Some(t)
                } else {
                    None
                },
                None => None,
            }
        },
        SExpr::Assign { lvalue, value, .. } => {
            let var = match lvalue {
                LValue::Symbol(name) => match env.resolve(*name) {
                    Some(v) => v,
                    None => 0,
                },
                _ => 0,
            };
            proof {
                law_scopes_are_kept(**value, env@);
            }
            let t = match check_expr(&**value, env, in_loop, lone) {
                Some(t) => t,
                None => return None,
            };
            let fits = match lvalue {
                LValue::Symbol(_) => match env.type_of(var) {
                    Some(u) => u == t,
                    None => false,
                },
                _ => check_place(lvalue, env, in_loop, lone),
            };
            if fits {
                Some(t)
            } else {
                None
            }
        },
        SExpr::Attribute { meta, top, attrs } => {
            match check_expr(&**top, env, in_loop, lone) {
                Some(IrType::I64) => {},
                _ => return None,
            }
            match &top.meta().type_ {
                Type::Slice(_, _) => {},
                _ => return None,
            }
            if attrs.len() > 0 && (same_text(attrs[0], "len") || same_text(attrs[0], "cap")
                || same_text(attrs[0], "ptr")) {
                find_ir(&meta.type_)
            } else {
                None
            }
        },
        SExpr::FuncDef { .. } => None,
        SExpr::StructSet { .. } => None,
    }
}

/// The machine-level types of the values of several expressions, if they have a
/// translation.
fn check_all<'a>(
    values: &Vec<SExpr<'a>>,
    env: &mut Env<'a>,
    in_loop: bool,
    lone: bool,
) -> (r: Option<Vec<IrType>>)
    requires
        sound(old(env)@),
        old(env)@.lone == lone,
    ensures
        r is Some <==> all_translatable(values@, old(env)@, in_loop),
        r matches Some(ts) ==> {
            &&& final(env)@ == env_after_all(values@, old(env)@)
            &&& ts@.len() == values@.len()
            &&& forall|i: int|
                0 <= i < values@.len() ==> #[trigger] ts@[i] == value_type(
                    values@[i],
                    env_after_all(values@.take(i), old(env)@),
                )
        },
    decreases values,
{
    let ghost env0 = env@;
    let mut ts: Vec<IrType> = Vec::new();
    let mut i: usize = 0;
    while i < values.len()
        invariant
            i <= values.len(),
            env0 == old(env)@,
            sound(env0),
            env0.lone == lone,
            env@ == env_after_all(values@.take(i as int), env0),
            all_translatable(values@.take(i as int), env0, in_loop),
            ts@.len() == i,
            forall|j: int|
                0 <= j < i ==> #[trigger] ts@[j] == value_type(
                    values@[j],
                    env_after_all(values@.take(j), env0),
                ),
        decreases values.len() - i,
    {
        proof {
            lemma_all_kept(values@.take(i as int), env0);
            assert(values@.take(i + 1).drop_last() =~= values@.take(i as int));
        }
        match check_expr(&values[i], env, in_loop, lone) {
            Some(t) => ts.push(t),
            None => {
                proof {
                    if all_translatable(values@, env0, in_loop) {
                        lemma_all_prefix(values@, env0, in_loop, i + 1);
                    }
                }
                return None;
            },
        }
        i += 1;
    }
    assert(values@.take(i as int) =~= values@);
    Some(ts)
}

/// Whether some conditions and their bodies have a translation.
fn check_arms<'a>(
    values: &Vec<(SExpr<'a>, SExpr<'a>)>,
    env: &mut Env<'a>,
    in_loop: bool,
    lone: bool,
) -> (r: bool)
    requires
        sound(old(env)@),
        old(env)@.lone == lone,
    ensures
        r == arms_translatable(values@, old(env)@, in_loop),
        r ==> final(env)@ == env_after_arms(values@, old(env)@),
    decreases values,
{
    let ghost env0 = env@;
    let mut i: usize = 0;
    while i < values.len()
        invariant
            i <= values.len(),
            env0 == old(env)@,
            sound(env0),
            env0.lone == lone,
            env@ == env_after_arms(values@.take(i as int), env0),
            arms_translatable(values@.take(i as int), env0, in_loop),
        decreases values.len() - i,
    {
        proof {
            lemma_arms_kept(values@.take(i as int), env0);
            assert(values@.take(i + 1).drop_last() =~= values@.take(i as int));
            lemma_enter(env@);
            law_scopes_are_kept(values@[i as int].0, env@.enter());
            law_scopes_are_kept(
                values@[i as int].1,
                env_after(values@[i as int].0, env@.enter()),
            );
            if arms_translatable(values@, env0, in_loop) {
                lemma_arms_prefix(values@, env0, in_loop, i + 1);
            }
        }
        env.enter();
        if check_expr(&values[i].0, env, in_loop, lone).is_none() {
            return false;
        }
        if check_expr(&values[i].1, env, in_loop, lone).is_none() {
            return false;
        }
        env.leave();
        i += 1;
    }
    assert(values@.take(i as int) =~= values@);
    true
}

/// Whether the address of a place has a translation.
fn check_place<'a>(
    lvalue: &LValue<'a>,
    env: &mut Env<'a>,
    in_loop: bool,
    lone: bool,
) -> (r: bool)
    requires
        sound(old(env)@),
        old(env)@.lone == lone,
    ensures
        r == place_translatable(*lvalue, old(env)@, in_loop),
        r ==> final(env)@ == env_after_place(*lvalue, old(env)@),
    decreases lvalue,
{
    match lvalue {
        LValue::Symbol(name) => match env.resolve(*name) {
            Some(v) => {
                proof {
                    lemma_resolve(env@, name@);
                }
                match env.type_of(v) {
                    Some(t) => t == IrType::I64,
                    None => false,
                }
            },
            None => false,
        },
        LValue::Attribute(_, _) => false,
        LValue::Deref(inner) => check_place(&**inner, env, in_loop, lone),
        LValue::Get(t, inner, index) => {
            proof {
                law_scopes_are_kept(**index, env@);
            }
            has_size(t) && check_expr(&**index, env, in_loop, lone).is_some() && check_place(
                &**inner,
                env,
                in_loop,
                lone,
            )
        },
    }
}

/// Whether the body of a function has a translation, one that keeps to one block
/// or any.
fn check_body<'a>(args: &Vec<(&'a str, Type<'a>)>, expr: &SExpr<'a>, lone: bool) -> (r: bool)
    requires
        all_ir(arg_types(args@)),
    ensures
        r == translatable(*expr, start_env(args@, lone), false),
{
    let mut env: Env<'a> = Env::new(Ghost(lone));
    let mut i: usize = 0;
    assert(args@.take(0) =~= seq![]);
    while i < args.len()
        invariant
            i <= args.len(),
            all_ir(arg_types(args@)),
            env@ == start_env(args@.take(i as int), lone),
        decreases args.len() - i,
    {
        proof {
            assert(arg_types(args@)[i as int] == args@[i as int].1);
            assert(args@.take(i + 1).drop_last() =~= args@.take(i as int));
            assert(args@.take(i + 1).last() == args@[i as int]);
            lemma_start_env(args@.take(i as int), lone);
        }
        let var = env.declare(Generator::convert_type_to_type(&args[i].1));
        env.bind(args[i].0, var);
        i += 1;
    }
    proof {
        assert(args@.take(i as int) =~= args@);
        lemma_start_env(args@, lone);
    }
    check_expr(expr, &mut env, false, lone).is_some()
}

impl Generator {
    /// Whether code can be made for an expression, if any is made for it.
    pub fn can_compile(sexpr: &SExpr<'_>) -> (r: bool)
        ensures
            r == compilable(*sexpr),
    {
        match sexpr {
            SExpr::FuncDef { name, ret_type, args, expr, .. } => {
                if Self::any_arg_generic(args) || ret_type.has_generic() {
                    return true;
                }
                Self::can_translate(*name, args, ret_type, expr)
            },
            _ => true,
        }
    }

    /// Whether a function has a translation.
    fn can_translate<'a>(
        name: &str,
        args: &Vec<(&'a str, Type<'a>)>,
        ret_type: &Type<'a>,
        expr: &SExpr<'a>,
    ) -> (r: bool)
        ensures
            r == function_translatable(name@, args@, *ret_type, *expr),
    {
        let ghost types = arg_types(args@);
        if args.len() > VARIABLE_LIMIT || find_ir(ret_type).is_none() {
            return false;
        }
        let mut spelled = is_spellable(ret_type);
        let mut i: usize = 0;
        assert(types.skip(0) =~= types);
        let ghost rest = spelled;
        while i < args.len()
            invariant
                i <= args.len(),
                types == arg_types(args@),
                forall|j: int| 0 <= j < i ==> ir_type(#[trigger] types[j]) is Some,
                (rest && all_spellable(types)) == (spelled && all_spellable(types.skip(i as int))),
            decreases args.len() - i,
        {
            proof {
                assert(types[i as int] == args@[i as int].1);
                assert(types.skip(i as int).drop_first() =~= types.skip(i + 1));
                assert(types.skip(i as int)[0] == types[i as int]);
            }
            if find_ir(&args[i].1).is_none() {
                assert(ir_type(types[i as int]) is None);
                return false;
            }
            spelled = spelled && is_spellable(&args[i].1);
            i += 1;
        }
        if !(same_text(name, "main") || spelled) {
            return false;
        }
        if !(check_body(args, expr, true) || check_body(args, expr, false)) {
            return false;
        }
        plan_fits(&Self::translate_function(args, ret_type, expr))
    }
}

} // verus!
