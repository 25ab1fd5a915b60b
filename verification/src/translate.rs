//! Lowering: the steps that an expression is planned as.

use vstd::prelude::*;

use crate::ast::{type_of, LValue, SExpr, Type};
use crate::env::{resolve, Env, EnvView};
use crate::generator::Generator;
use crate::ir::{all_ir, convert_types, ir_type, ir_types, IrType};
use crate::lower::{
    binary_op, cond_blocks, env_after, env_after_all, env_after_arms, env_after_place, find_builtin,
    ir, is_float, is_signed, lower, lower_all, lower_arms, lower_builtin, lower_place, lower_text,
    size, syscall_params, Builtin, SLICE_BYTES,
};
use crate::mangle::{has_symbol, symbol, targets};
use crate::step::{actions, int_option, ints, Action, BinaryOp, IntCond, Step};
use crate::text::{decimal, push_decimal, same_text};
use crate::translatable::{
    all_translatable, arms_translatable, law_scopes_are_kept, lemma_all_kept, lemma_arms_kept,
    lemma_declare, lemma_enter, place_translatable, sound, takes, translatable,
};

verus! {

/// Adds a step, and tells its place.
pub fn add_step(steps: &mut Vec<Step>, s: Step) -> (r: usize)
    ensures
        actions(final(steps)@) == actions(old(steps)@).push(s@),
        r == actions(old(steps)@).len(),
{
    let r = steps.len();
    steps.push(s);
    assert(actions(steps@) =~= actions(old(steps)@).push(s@));
    r
}

pub proof fn lemma_all_prefix(es: Seq<SExpr<'_>>, env: EnvView, in_loop: bool, i: int)
    requires
        all_translatable(es, env, in_loop),
        0 <= i <= es.len(),
    ensures
        all_translatable(es.take(i), env, in_loop),
    decreases es.len(),
{
    if i < es.len() {
        lemma_all_prefix(es.drop_last(), env, in_loop, i);
        assert(es.drop_last().take(i) =~= es.take(i));
    } else {
        assert(es.take(i) =~= es);
    }
}

pub proof fn lemma_arms_prefix(arms: Seq<(SExpr<'_>, SExpr<'_>)>, env: EnvView, in_loop: bool, i: int)
    requires
        arms_translatable(arms, env, in_loop),
        0 <= i <= arms.len(),
    ensures
        arms_translatable(arms.take(i), env, in_loop),
    decreases arms.len(),
{
    if i < arms.len() {
        lemma_arms_prefix(arms.drop_last(), env, in_loop, i);
        assert(arms.drop_last().take(i) =~= arms.take(i));
    } else {
        assert(arms.take(i) =~= arms);
    }
}

proof fn lemma_cond_blocks(count: nat, acts: Seq<Action>)
    ensures
        cond_blocks(count, acts).len() == acts.len() + 2 * count,
    decreases count,
{
    if count > 0 {
        lemma_cond_blocks((count - 1) as nat, acts);
    }
}

/// References to some types.
fn refs<'t, 'b>(ts: &'t Vec<Type<'b>>) -> (r: Vec<&'t Type<'b>>)
    ensures
        targets(r@) == ts@,
{
    let mut r: Vec<&'t Type<'b>> = Vec::new();
    let mut i: usize = 0;
    while i < ts.len()
        invariant
            i <= ts.len(),
            r@.len() == i,
            forall|j: int| 0 <= j < i ==> *r@[j] == ts@[j],
        decreases ts.len() - i,
    {
        r.push(&ts[i]);
        i += 1;
    }
    assert(targets(r@) =~= ts@);
    r
}

/// The steps that declare a function of the program and make it known; tells
/// the place of the latter.
fn import_function<'a>(
    name: &str,
    a: &Vec<Type<'a>>,
    r: &Type<'a>,
    steps: &mut Vec<Step>,
) -> (f: usize)
    requires
        all_ir(a@),
        ir_type(*r) is Some,
        has_symbol(name@, a@, *r),
    ensures
        actions(final(steps)@) == actions(old(steps)@).push(
            Action::DeclareFunction(symbol(name@, a@, *r), ir_types(a@), ir(*r)),
        ).push(Action::ImportFunction(actions(old(steps)@).len() as int, ir(*r))),
        f == actions(old(steps)@).len() + 1,
{
    let ret = Generator::convert_type_to_type(r);
    let mangled = Generator::mangle_func(name, &refs(a), r);
    let id = add_step(steps, Step::DeclareFunction(mangled, convert_types(a), ret));
    add_step(steps, Step::ImportFunction(id, ret))
}

fn is_float_type(t: &Type<'_>) -> (r: bool)
    ensures
        r == is_float(*t),
{
    match t {
        Type::F32 => true,
        Type::F64 => true,
        _ => false,
    }
}

fn is_signed_type(t: &Type<'_>) -> (r: bool)
    ensures
        r == is_signed(*t),
{
    match t {
        Type::Int(signed, _) => *signed,
        _ => false,
    }
}

fn choose_binary_op(op: Builtin, t: &Type<'_>) -> (r: BinaryOp)
    ensures
        r == binary_op(op, *t),
{
    match op {
        Builtin::Add => if is_float_type(t) {
            BinaryOp::Fadd
        } else {
            BinaryOp::Iadd
        },
        Builtin::Sub => if is_float_type(t) {
            BinaryOp::Fsub
        } else {
            BinaryOp::Isub
        },
        Builtin::Mul => if is_float_type(t) {
            BinaryOp::Fmul
        } else {
            BinaryOp::Imul
        },
        Builtin::Div => if is_float_type(t) {
            BinaryOp::Fdiv
        } else if is_signed_type(t) {
            BinaryOp::Sdiv
        } else {
            BinaryOp::Udiv
        },
        Builtin::Rem => if is_signed_type(t) {
            BinaryOp::Srem
        } else {
            BinaryOp::Urem
        },
        Builtin::And => BinaryOp::Band,
        Builtin::Or => BinaryOp::Bor,
        Builtin::Xor => BinaryOp::Bxor,
        Builtin::Shl => BinaryOp::Ishl,
        _ => BinaryOp::Ushr,
    }
}

/// Seven 64-bit integers: what a system call takes.
fn seven_words() -> (r: Vec<IrType>)
    ensures
        r@ == syscall_params(),
{
    let mut r: Vec<IrType> = Vec::new();
    r.push(IrType::I64);
    r.push(IrType::I64);
    r.push(IrType::I64);
    r.push(IrType::I64);
    r.push(IrType::I64);
    r.push(IrType::I64);
    r.push(IrType::I64);
    assert(r@ =~= syscall_params());
    r
}

/// Plans a call of a built-in function.
fn translate_builtin(
    op: Builtin,
    t: &Type<'_>,
    values: Vec<usize>,
    steps: &mut Vec<Step>,
    Ghost(arg): Ghost<Type<'_>>,
) -> (v: usize)
    requires
        takes(op, *t, arg, values@.len()),
    ensures
        actions(final(steps)@) == lower_builtin(
            op,
            *t,
            arg,
            actions(old(steps)@),
            ints(values@),
        ).acts,
        v == lower_builtin(op, *t, arg, actions(old(steps)@), ints(values@)).value,
{
    match op {
        Builtin::Cast => values[0],
        Builtin::Syscall => {
            let id = add_step(
                steps,
                Step::DeclareFunction("syscall_".to_owned(), seven_words(), IrType::I64),
            );
            let f = add_step(steps, Step::ImportFunction(id, IrType::I64));
            let call = add_step(steps, Step::Call(f, values));
            add_step(steps, Step::InstResult(call))
        },
        Builtin::Alloca => match t {
            Type::Pointer(_, inner) => {
                let slot = add_step(steps, Step::CreateStackSlot(Generator::size_of(&**inner)));
                add_step(steps, Step::StackAddr(Generator::convert_type_to_type(t), slot, 0))
            },
            Type::Slice(_, inner) => {
                let ty = Generator::convert_type_to_type(t);
                let len = values[0];
                let bytes = add_step(
                    steps,
                    Step::ImulImm(len, Generator::size_of(&**inner) as i64),
                );
                let fits = add_step(
                    steps,
                    Step::CompareIntImm(
                        IntCond::UnsignedLessThanOrEqual,
                        bytes,
                        SLICE_BYTES as i64,
                    ),
                );
                add_step(steps, Step::TrapzStackOverflow(fits));
                let slot = add_step(steps, Step::CreateStackSlot(SLICE_BYTES));
                let reference = add_step(steps, Step::StackAddr(ty, slot, 0));
                let slot = add_step(steps, Step::CreateStackSlot(16));
                add_step(steps, Step::StackStore(len, slot, 0));
                add_step(steps, Step::StackStore(reference, slot, 8));
                add_step(steps, Step::StackAddr(ty, slot, 0))
            },
            _ => 0,
        },
        Builtin::Get => {
            let v = add_step(steps, Step::Load(IrType::I64, values[0], 8));
            let i = add_step(steps, Step::ImulImm(values[1], Generator::size_of(t) as i64));
            let ptr = add_step(steps, Step::Binary(BinaryOp::Iadd, v, i));
            add_step(steps, Step::Load(Generator::convert_type_to_type(t), ptr, 0))
        },
        Builtin::Less => if is_float_type(t) {
            add_step(steps, Step::FloatLessThan(values[0], values[1]))
        } else if is_signed_type(t) {
            add_step(steps, Step::CompareInt(IntCond::SignedLessThan, values[0], values[1]))
        } else {
            add_step(steps, Step::CompareInt(IntCond::UnsignedLessThan, values[0], values[1]))
        },
        _ => add_step(steps, Step::Binary(choose_binary_op(op, t), values[0], values[1])),
    }
}

/// Plans a text.
fn translate_text(ty: IrType, text: &str, number: usize, steps: &mut Vec<Step>) -> (v: usize)
    ensures
        actions(final(steps)@) == lower_text(
            ty,
            text@,
            number as int,
            actions(old(steps)@),
        ).acts,
        v == lower_text(ty, text@, number as int, actions(old(steps)@)).value,
{
    let mut name = String::new();
    push_decimal(&mut name, number);
    assert(name@ =~= decimal(number as nat));
    let bytes = vstd::slice::slice_to_vec(text.as_bytes());
    let len = bytes.len() as i64;
    let data = add_step(steps, Step::DeclareData(name));
    add_step(steps, Step::DefineData(data, bytes));
    let global = add_step(steps, Step::ImportData(data));
    let size = add_step(steps, Step::Iconst(IrType::I64, len));
    let reference = add_step(steps, Step::GlobalValue(ty, global));
    let slot = add_step(steps, Step::CreateStackSlot(16));
    add_step(steps, Step::StackStore(size, slot, 0));
    add_step(steps, Step::StackStore(reference, slot, 8));
    add_step(steps, Step::StackAddr(ty, slot, 0))
}

impl Generator {
    /// Plans an expression: adds its steps, and tells the place of the one that
    /// gives its value.
    #[verifier::rlimit(60)]
    #[verifier::spinoff_prover]
    pub fn translate_expr<'a>(
        sexpr: &SExpr<'a>,
        steps: &mut Vec<Step>,
        env: &mut Env<'a>,
        break_block: Option<usize>,
    ) -> (v: usize)
        requires
            sound(old(env)@),
            translatable(*sexpr, old(env)@, break_block is Some),
        ensures
            final(env)@ == env_after(*sexpr, old(env)@),
            actions(final(steps)@) == lower(
                *sexpr,
                actions(old(steps)@),
                old(env)@,
                int_option(break_block),
            ).acts,
            v == lower(
                *sexpr,
                actions(old(steps)@),
                old(env)@,
                int_option(break_block),
            ).value,
        decreases sexpr,
    {
        let ghost env0 = env@;
        match sexpr {
            SExpr::Int { meta, value } => {
                let ty = Self::convert_type_to_type(&meta.type_);
                match &meta.type_ {
                    Type::Int(_, 1) => add_step(steps, Step::Bconst(ty, *value != 0)),
                    _ => add_step(steps, Step::Iconst(ty, #[verifier::truncate] (*value as i64))),
                }
            },
            SExpr::Symbol { meta, value } => {
                match env.resolve(*value) {
                    Some(var) => add_step(steps, Step::UseVar(var)),
                    None => match &meta.type_ {
                        Type::Function(a, r) => {
                            let func = import_function(*value, a, &**r, steps);
                            add_step(
                                steps,
                                Step::FuncAddr(Self::convert_type_to_type(&meta.type_), func),
                            )
                        },
                        _ => 0,
                    },
                }
            },
            SExpr::Float { meta, value } => {
                match &meta.type_ {
                    Type::F32 => add_step(steps, Step::F32const(value.single)),
                    _ => add_step(steps, Step::F64const(value.double)),
                }
            },
            SExpr::Str { meta, value } => {
                let number = env.reserve();
                translate_text(Self::convert_type_to_type(&meta.type_), *value, number, steps)
            },
            SExpr::Sequence { values, .. } => {
                proof {
                    lemma_enter(env@);
                    lemma_all_kept(values@, env@.enter());
                }
                env.enter();
                let all = Self::translate_all(values, steps, env, break_block);
                env.leave();
                all[all.len() - 1]
            },
            SExpr::Cond { meta, values, elsy } => {
                let ghost acts0 = actions(steps@);
                let ty = Self::convert_type_to_type(&meta.type_);
                let first = steps.len();
                let count = values.len();
                let mut i: usize = 0;
                while i < count
                    invariant
                        i <= count,
                        actions(steps@) == cond_blocks(i as nat, acts0),
                    decreases count - i,
                {
                    add_step(steps, Step::CreateBlock);
                    add_step(steps, Step::CreateBlock);
                    i += 1;
                }
                proof {
                    lemma_cond_blocks(count as nat, acts0);
                    lemma_arms_kept(values@, env@);
                }
                let end = add_step(steps, Step::CreateBlock);
                add_step(steps, Step::AppendBlockParam(end, ty));
                Self::translate_arms(values, steps, env, break_block, first, end);
                let other = match elsy {
                    Some(e) => {
                        proof {
                            lemma_enter(env@);
                            law_scopes_are_kept(**e, env@.enter());
                        }
                        env.enter();
                        let v = Self::translate_expr(&**e, steps, env, break_block);
                        env.leave();
                        v
                    },
                    None => add_step(steps, Step::Bconst(IrType::B1, false)),
                };
                add_step(steps, Step::Jump(end, Some(other)));
                add_step(steps, Step::SwitchToBlock(end));
                add_step(steps, Step::BlockParam(end, 0))
            },
            SExpr::Loop { meta, value } => {
                let ty = Self::convert_type_to_type(&meta.type_);
                let loop_block = add_step(steps, Step::CreateBlock);
                let end = add_step(steps, Step::CreateBlock);
                add_step(steps, Step::AppendBlockParam(end, ty));
                add_step(steps, Step::Jump(loop_block, None));
                add_step(steps, Step::SwitchToBlock(loop_block));
                proof {
                    lemma_enter(env@);
                    law_scopes_are_kept(**value, env@.enter());
                }
                env.enter();
                Self::translate_expr(&**value, steps, env, Some(end));
                env.leave();
                add_step(steps, Step::Jump(loop_block, None));
                add_step(steps, Step::SwitchToBlock(end));
                add_step(steps, Step::BlockParam(end, 0))
            },
            SExpr::Break { meta, value } => {
                let ty = Self::convert_type_to_type(&meta.type_);
                let v = match value {
                    Some(e) => Self::translate_expr(&**e, steps, env, break_block),
                    None => add_step(steps, Step::Bconst(ty, false)),
                };
                match break_block {
                    Some(end) => {
                        add_step(steps, Step::Jump(end, Some(v)));
                        let new = add_step(steps, Step::CreateBlock);
                        add_step(steps, Step::SwitchToBlock(new));
                        add_step(steps, Step::Bconst(ty, false))
                    },
                    None => 0,
                }
            },
            SExpr::Nil { meta } => {
                add_step(steps, Step::Bconst(Self::convert_type_to_type(&meta.type_), false))
            },
            SExpr::Type { value, .. } => Self::translate_expr(&**value, steps, env, break_block),
            SExpr::FuncCall { meta, func, values } => {
                let args = Self::translate_all(values, steps, env, break_block);
                match &**func {
                    SExpr::Symbol { meta: callee, value: name } => {
                        match find_builtin(*name) {
                            Some(op) => translate_builtin(
                                op,
                                &meta.type_,
                                args,
                                steps,
                                Ghost(type_of(values@[0])),
                            ),
                            None => match &callee.type_ {
                                Type::Function(a, r) => {
                                    match env.resolve(*name) {
                                        Some(var) => {
                                            let sig = add_step(
                                                steps,
                                                Step::ImportSignature(
                                                    convert_types(a),
                                                    Self::convert_type_to_type(&**r),
                                                ),
                                            );
                                            let address = add_step(steps, Step::UseVar(var));
                                            let call = add_step(
                                                steps,
                                                Step::CallIndirect(sig, address, args),
                                            );
                                            add_step(steps, Step::InstResult(call))
                                        },
                                        None => {
                                            let f = import_function(*name, a, &**r, steps);
                                            let call = add_step(steps, Step::Call(f, args));
                                            add_step(steps, Step::InstResult(call))
                                        },
                                    }
                                },
                                _ => 0,
                            },
                        }
                    },
                    _ => 0,
                }
            },
            SExpr::Declare { meta, variable, value, .. } => {
                let ty = Self::convert_type_to_type(&meta.type_);
                proof {
                    lemma_declare(env@, ty);
                    law_scopes_are_kept(**value, env@.declare(ty));
                }
                let var = env.declare(ty);
                add_step(steps, Step::DeclareVar(var, ty));
                let v = Self::translate_expr(&**value, steps, env, break_block);
                env.bind(*variable, var);
                add_step(steps, Step::DefVar(var, v));
                add_step(steps, Step::UseVar(var))
            },
            SExpr::Assign { lvalue, value, .. } => {
                match lvalue {
                    LValue::Symbol(name) => {
                        let var = match env.resolve(*name) {
                            Some(var) => var,
                            None => 0,
                        };
                        let v = Self::translate_expr(&**value, steps, env, break_block);
                        add_step(steps, Step::DefVar(var, v));
                        add_step(steps, Step::UseVar(var))
                    },
                    _ => {
                        proof {
                            law_scopes_are_kept(**value, env@);
                        }
                        let v = Self::translate_expr(&**value, steps, env, break_block);
                        let p = Self::get_pointer(lvalue, steps, env, break_block);
                        add_step(steps, Step::Store(v, p, 0));
                        v
                    },
                }
            },
            SExpr::Attribute { meta, top, attrs } => {
                let ty = Self::convert_type_to_type(&meta.type_);
                let v = Self::translate_expr(&**top, steps, env, break_block);
                let offset: i32 = if same_text(attrs[0], "len") || same_text(attrs[0], "cap") {
                    0
                } else {
                    8
                };
                add_step(steps, Step::Load(ty, v, offset))
            },
            _ => 0,
        }
    }

    /// Plans several expressions, and tells the places of their values.
    fn translate_all<'a>(
        values: &Vec<SExpr<'a>>,
        steps: &mut Vec<Step>,
        env: &mut Env<'a>,
        break_block: Option<usize>,
    ) -> (r: Vec<usize>)
        requires
            sound(old(env)@),
            all_translatable(values@, old(env)@, break_block is Some),
        ensures
            final(env)@ == env_after_all(values@, old(env)@),
            actions(final(steps)@) == lower_all(
                values@,
                actions(old(steps)@),
                old(env)@,
                int_option(break_block),
            ).acts,
            ints(r@) == lower_all(
                values@,
                actions(old(steps)@),
                old(env)@,
                int_option(break_block),
            ).values,
            r@.len() == values@.len(),
        decreases values,
    {
        let ghost acts0 = actions(steps@);
        let ghost env0 = env@;
        let ghost brk = int_option(break_block);
        let mut r: Vec<usize> = Vec::new();
        let mut i: usize = 0;
        assert(ints(r@) =~= lower_all(values@.take(0), acts0, env0, brk).values);
        while i < values.len()
            invariant
                i <= values.len(),
                r@.len() == i,
                sound(env0),
                brk == int_option(break_block),
                all_translatable(values@, env0, break_block is Some),
                env@ == env_after_all(values@.take(i as int), env0),
                actions(steps@) == lower_all(values@.take(i as int), acts0, env0, brk).acts,
                ints(r@) == lower_all(values@.take(i as int), acts0, env0, brk).values,
            decreases values.len() - i,
        {
            proof {
                lemma_all_prefix(values@, env0, break_block is Some, i + 1);
                lemma_all_kept(values@.take(i as int), env0);
                assert(values@.take(i + 1).drop_last() =~= values@.take(i as int));
            }
            let ghost before = r@;
            let v = Self::translate_expr(&values[i], steps, env, break_block);
            r.push(v);
            assert(ints(r@) =~= ints(before).push(v as int));
            i += 1;
        }
        assert(values@.take(i as int) =~= values@);
        r
    }

    /// Plans some conditions and their bodies, with their blocks from `first`
    /// on, and going on at the block `end`.
    fn translate_arms<'a>(
        values: &Vec<(SExpr<'a>, SExpr<'a>)>,
        steps: &mut Vec<Step>,
        env: &mut Env<'a>,
        break_block: Option<usize>,
        first: usize,
        end: usize,
    )
        requires
            sound(old(env)@),
            arms_translatable(values@, old(env)@, break_block is Some),
            first + 2 * values@.len() <= end,
        ensures
            final(env)@ == env_after_arms(values@, old(env)@),
            actions(final(steps)@) == lower_arms(
                values@,
                actions(old(steps)@),
                old(env)@,
                int_option(break_block),
                first as int,
                end as int,
            ),
        decreases values,
    {
        let ghost acts0 = actions(steps@);
        let ghost env0 = env@;
        let ghost brk = int_option(break_block);
        let mut i: usize = 0;
        while i < values.len()
            invariant
                i <= values.len(),
                sound(env0),
                brk == int_option(break_block),
                first + 2 * values@.len() <= end,
                arms_translatable(values@, env0, break_block is Some),
                env@ == env_after_arms(values@.take(i as int), env0),
                actions(steps@) == lower_arms(
                    values@.take(i as int),
                    acts0,
                    env0,
                    brk,
                    first as int,
                    end as int,
                ),
            decreases values.len() - i,
        {
            let other = first + 2 * i;
            let then = first + 2 * i + 1;
            proof {
                lemma_arms_prefix(values@, env0, break_block is Some, i + 1);
                lemma_arms_kept(values@.take(i as int), env0);
                assert(values@.take(i + 1).drop_last() =~= values@.take(i as int));
                lemma_enter(env@);
                law_scopes_are_kept(values@[i as int].0, env@.enter());
                law_scopes_are_kept(
                    values@[i as int].1,
                    env_after(values@[i as int].0, env@.enter()),
                );
            }
            env.enter();
            let cond = Self::translate_expr(&values[i].0, steps, env, break_block);
            add_step(steps, Step::Brz(cond, other));
            add_step(steps, Step::Jump(then, None));
            add_step(steps, Step::SwitchToBlock(then));
            let body = Self::translate_expr(&values[i].1, steps, env, break_block);
            env.leave();
            add_step(steps, Step::Jump(end, Some(body)));
            add_step(steps, Step::SwitchToBlock(other));
            i += 1;
        }
        assert(values@.take(i as int) =~= values@);
    }

    /// Plans the address of a place.
    fn get_pointer<'a>(
        lvalue: &LValue<'a>,
        steps: &mut Vec<Step>,
        env: &mut Env<'a>,
        break_block: Option<usize>,
    ) -> (v: usize)
        requires
            sound(old(env)@),
            place_translatable(*lvalue, old(env)@, break_block is Some),
        ensures
            final(env)@ == env_after_place(*lvalue, old(env)@),
            actions(final(steps)@) == lower_place(
                *lvalue,
                actions(old(steps)@),
                old(env)@,
                int_option(break_block),
            ).acts,
            v == lower_place(
                *lvalue,
                actions(old(steps)@),
                old(env)@,
                int_option(break_block),
            ).value,
        decreases lvalue,
    {
        match lvalue {
            LValue::Symbol(name) => {
                match env.resolve(*name) {
                    Some(var) => add_step(steps, Step::UseVar(var)),
                    None => 0,
                }
            },
            LValue::Attribute(_, _) => 0,
            LValue::Deref(inner) => {
                let p = Self::get_pointer(&**inner, steps, env, break_block);
                match &**inner {
                    LValue::Symbol(_) => p,
                    _ => add_step(steps, Step::Load(IrType::I64, p, 0)),
                }
            },
            LValue::Get(t, inner, index) => {
                proof {
                    law_scopes_are_kept(**index, env@);
                }
                let i = Self::translate_expr(&**index, steps, env, break_block);
                let offset = add_step(steps, Step::ImulImm(i, Self::size_of(t) as i64));
                let p = Self::get_pointer(&**inner, steps, env, break_block);
                let p = match &**inner {
                    LValue::Symbol(_) => p,
                    _ => add_step(steps, Step::Load(IrType::I64, p, 0)),
                };
                let base = add_step(steps, Step::Load(IrType::I64, p, 8));
                add_step(steps, Step::Binary(BinaryOp::Iadd, base, offset))
            },
        }
    }
}

} // verus!
