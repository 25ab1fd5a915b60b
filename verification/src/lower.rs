//! How expressions are lowered: the actions that an expression stands for.

use vstd::prelude::*;

use crate::ast::{type_of, LValue, SExpr, Type};
use crate::env::{resolve, EnvView};
use crate::ir::{byte_size, ir_type, ir_types, IrType};
use crate::mangle::symbol;
use crate::step::{Action, BinaryOp, IntCond};
use crate::text::{decimal, same_text};

verus! {

/// A function that the language has built in.
#[derive(Clone, Copy, PartialEq, Eq, Structural)]
pub enum Builtin {
    Add,
    Sub,
    Mul,
    Div,
    Rem,
    Syscall,
    Cast,
    Alloca,
    Get,
    And,
    Or,
    Xor,
    Shl,
    Shr,
    Less,
}

/// The built-in function of a name.
pub open spec fn builtin(name: Seq<char>) -> Option<Builtin> {
    if name == "+"@ {
        Some(Builtin::Add)
    } else if name == "-"@ {
        Some(Builtin::Sub)
    } else if name == "*"@ {
        Some(Builtin::Mul)
    } else if name == "/"@ {
        Some(Builtin::Div)
    } else if name == "%"@ {
        Some(Builtin::Rem)
    } else if name == "syscall"@ {
        Some(Builtin::Syscall)
    } else if name == "cast"@ {
        Some(Builtin::Cast)
    } else if name == "alloca"@ {
        Some(Builtin::Alloca)
    } else if name == "get"@ {
        Some(Builtin::Get)
    } else if name == "&"@ {
        Some(Builtin::And)
    } else if name == "|"@ {
        Some(Builtin::Or)
    } else if name == "^"@ {
        Some(Builtin::Xor)
    } else if name == "<<"@ {
        Some(Builtin::Shl)
    } else if name == ">>"@ {
        Some(Builtin::Shr)
    } else if name == "<"@ {
        Some(Builtin::Less)
    } else {
        None
    }
}

/// The built-in function of a name.
pub fn find_builtin(name: &str) -> (r: Option<Builtin>)
    ensures
        r == builtin(name@),
{
    if same_text(name, "+") {
        Some(Builtin::Add)
    } else if same_text(name, "-") {
        Some(Builtin::Sub)
    } else if same_text(name, "*") {
        Some(Builtin::Mul)
    } else if same_text(name, "/") {
        Some(Builtin::Div)
    } else if same_text(name, "%") {
        Some(Builtin::Rem)
    } else if same_text(name, "syscall") {
        Some(Builtin::Syscall)
    } else if same_text(name, "cast") {
        Some(Builtin::Cast)
    } else if same_text(name, "alloca") {
        Some(Builtin::Alloca)
    } else if same_text(name, "get") {
        Some(Builtin::Get)
    } else if same_text(name, "&") {
        Some(Builtin::And)
    } else if same_text(name, "|") {
        Some(Builtin::Or)
    } else if same_text(name, "^") {
        Some(Builtin::Xor)
    } else if same_text(name, "<<") {
        Some(Builtin::Shl)
    } else if same_text(name, ">>") {
        Some(Builtin::Shr)
    } else if same_text(name, "<") {
        Some(Builtin::Less)
    } else {
        None
    }
}

/// The machine-level type of a type that has one.
pub open spec fn ir(t: Type<'_>) -> IrType {
    ir_type(t)->0
}

/// The size of a type that has one.
pub open spec fn size(t: Type<'_>) -> i64 {
    (byte_size(t)->0) as i64
}

/// Whether a type is one of numbers with a fraction.
pub open spec fn is_float(t: Type<'_>) -> bool {
    t is F32 || t is F64
}

/// Whether a type is one of signed integers.
pub open spec fn is_signed(t: Type<'_>) -> bool {
    t matches Type::Int(signed, _) && signed
}

/// The bytes of a text.
pub open spec fn bytes_of(s: Seq<char>) -> Seq<u8> {
    vstd::utf8::encode_utf8(s)
}

/// The bytes that a slice on the stack can take.
pub const SLICE_BYTES: u32 = 512;

/// The parameters of the system call function.
pub open spec fn syscall_params() -> Seq<IrType> {
    seq![
        IrType::I64,
        IrType::I64,
        IrType::I64,
        IrType::I64,
        IrType::I64,
        IrType::I64,
        IrType::I64,
    ]
}

/// What an expression is lowered to: the actions up to its end, and the place
/// of the one that gives its value.
pub struct Lowered {
    pub acts: Seq<Action>,
    pub value: int,
}

/// One more action, which gives the value.
pub open spec fn last(acts: Seq<Action>, a: Action) -> Lowered {
    Lowered { acts: acts.push(a), value: acts.len() as int }
}

/// What several expressions are lowered to: the actions up to the end of the
/// last one, and the places of their values.
pub struct LoweredAll {
    pub acts: Seq<Action>,
    pub values: Seq<int>,
}

/// The variables after an expression.
pub open spec fn env_after(e: SExpr<'_>, env: EnvView) -> EnvView
    decreases e,
{
    match e {
        SExpr::Str { .. } => env.reserve(),
        SExpr::Sequence { values, .. } => env_after_all(values@, env.enter()).leave(),
        SExpr::Cond { values, elsy, .. } => {
            let env = env_after_arms(values@, env);
            match elsy {
                Some(e) => env_after(*e, env.enter()).leave(),
                None => env,
            }
        },
        SExpr::Loop { value, .. } => env_after(*value, env.enter()).leave(),
        SExpr::Break { value, .. } => match value {
            Some(e) => env_after(*e, env),
            None => env,
        },
        SExpr::Type { value, .. } => env_after(*value, env),
        SExpr::FuncCall { values, .. } => env_after_all(values@, env),
        SExpr::Declare { meta, variable, value, .. } => env_after(
            *value,
            env.declare(ir(meta.type_)),
        ).bind(variable@, env.next()),
        SExpr::Assign { lvalue, value, .. } => match lvalue {
            LValue::Symbol(_) => env_after(*value, env),
            _ => env_after_place(lvalue, env_after(*value, env)),
        },
        SExpr::Attribute { top, .. } => env_after(*top, env),
        _ => env,
    }
}

/// The variables after several expressions.
pub open spec fn env_after_all(es: Seq<SExpr<'_>>, env: EnvView) -> EnvView
    decreases es,
{
    if es.len() == 0 {
        env
    } else {
        env_after(es[es.len() - 1], env_after_all(es.drop_last(), env))
    }
}

/// The variables after some conditions and their bodies.
pub open spec fn env_after_arms(arms: Seq<(SExpr<'_>, SExpr<'_>)>, env: EnvView) -> EnvView
    decreases arms,
{
    if arms.len() == 0 {
        env
    } else {
        let env = env_after_arms(arms.drop_last(), env).enter();
        env_after(arms[arms.len() - 1].1, env_after(arms[arms.len() - 1].0, env)).leave()
    }
}

/// The variables after the address of a place.
pub open spec fn env_after_place(place: LValue<'_>, env: EnvView) -> EnvView
    decreases place,
{
    match place {
        LValue::Symbol(_) | LValue::Attribute(..) => env,
        LValue::Deref(v) => env_after_place(*v, env),
        LValue::Get(_, v, i) => env_after_place(*v, env_after(*i, env)),
    }
}

/// What an expression is lowered to, after the actions `acts`, with the
/// variables `env`, in a loop that ends at the block `brk`.
pub open spec fn lower(
    e: SExpr<'_>,
    acts: Seq<Action>,
    env: EnvView,
    brk: Option<int>,
) -> Lowered
    decreases e,
{
    let n = acts.len() as int;
    match e {
        SExpr::Int { meta, value } => last(
            acts,
            if meta.type_ matches Type::Int(_, 1) {
                Action::Bconst(ir(meta.type_), value != 0)
            } else {
                Action::Iconst(ir(meta.type_), value as i64)
            },
        ),
        SExpr::Symbol { meta, value } => match resolve(env.scopes, value@) {
            Some(v) => last(acts, Action::UseVar(v)),
            None => lower_function_address(meta.type_, value@, acts),
        },
        SExpr::Float { meta, value } => last(
            acts,
            if meta.type_ is F32 {
                Action::F32const(value.single)
            } else {
                Action::F64const(value.double)
            },
        ),
        SExpr::Str { meta, value } => lower_text(ir(meta.type_), value@, env.next(), acts),
        SExpr::Sequence { values, .. } => {
            let all = lower_all(values@, acts, env.enter(), brk);
            Lowered { acts: all.acts, value: all.values.last() }
        },
        SExpr::Cond { meta, values, elsy } => {
            let count = values@.len();
            let acts = cond_blocks(count, acts).push(Action::CreateBlock).push(
                Action::AppendBlockParam(n + 2 * count, ir(meta.type_)),
            );
            let acts = lower_arms(values@, acts, env, brk, n, n + 2 * count);
            let other = match elsy {
                Some(e) => lower(*e, acts, env_after_arms(values@, env).enter(), brk),
                None => last(acts, Action::Bconst(IrType::B1, false)),
            };
            last(
                other.acts.push(Action::Jump(n + 2 * count, Some(other.value))).push(
                    Action::SwitchToBlock(n + 2 * count),
                ),
                Action::BlockParam(n + 2 * count, 0),
            )
        },
        SExpr::Loop { meta, value } => {
            let acts = acts.push(Action::CreateBlock).push(Action::CreateBlock).push(
                Action::AppendBlockParam(n + 1, ir(meta.type_)),
            ).push(Action::Jump(n, None)).push(Action::SwitchToBlock(n));
            let body = lower(*value, acts, env.enter(), Some(n + 1));
            last(
                body.acts.push(Action::Jump(n, None)).push(Action::SwitchToBlock(n + 1)),
                Action::BlockParam(n + 1, 0),
            )
        },
        SExpr::Break { meta, value } => {
            let v = match value {
                Some(e) => lower(*e, acts, env, brk),
                None => last(acts, Action::Bconst(ir(meta.type_), false)),
            };
            let acts = v.acts.push(Action::Jump(brk->0, Some(v.value)));
            last(
                acts.push(Action::CreateBlock).push(Action::SwitchToBlock(acts.len() as int)),
                Action::Bconst(ir(meta.type_), false),
            )
        },
        SExpr::Nil { meta } => last(acts, Action::Bconst(ir(meta.type_), false)),
        SExpr::Type { value, .. } => lower(*value, acts, env, brk),
        SExpr::FuncCall { meta, func, values } => {
            let args = lower_all(values@, acts, env, brk);
            match *func {
                SExpr::Symbol { meta: callee, value: name } => match builtin(name@) {
                    Some(op) => lower_builtin(
                        op,
                        meta.type_,
                        type_of(values@[0]),
                        args.acts,
                        args.values,
                    ),
                    None => lower_call(
                        callee.type_,
                        name@,
                        resolve(env_after_all(values@, env).scopes, name@),
                        args.acts,
                        args.values,
                    ),
                },
                _ => Lowered { acts: args.acts, value: 0 },
            }
        },
        SExpr::Declare { meta, value, .. } => {
            let v = lower(
                *value,
                acts.push(Action::DeclareVar(env.next(), ir(meta.type_))),
                env.declare(ir(meta.type_)),
                brk,
            );
            last(v.acts.push(Action::DefVar(env.next(), v.value)), Action::UseVar(env.next()))
        },
        SExpr::Assign { lvalue, value, .. } => {
            let v = lower(*value, acts, env, brk);
            match lvalue {
                LValue::Symbol(name) => {
                    let var = assigned(env, name@);
                    last(v.acts.push(Action::DefVar(var, v.value)), Action::UseVar(var))
                },
                _ => {
                    let p = lower_place(lvalue, v.acts, env_after(*value, env), brk);
                    Lowered {
                        acts: p.acts.push(Action::Store(v.value, p.value, 0)),
                        value: v.value,
                    }
                },
            }
        },
        SExpr::Attribute { meta, top, attrs } => {
            let v = lower(*top, acts, env, brk);
            last(v.acts, Action::Load(ir(meta.type_), v.value, attribute_offset(attrs@[0]@)->0))
        },
        _ => Lowered { acts, value: 0 },
    }
}

/// What several expressions are lowered to.
pub open spec fn lower_all(
    es: Seq<SExpr<'_>>,
    acts: Seq<Action>,
    env: EnvView,
    brk: Option<int>,
) -> LoweredAll
    decreases es,
{
    if es.len() == 0 {
        LoweredAll { acts, values: seq![] }
    } else {
        let before = lower_all(es.drop_last(), acts, env, brk);
        let v = lower(
            es[es.len() - 1],
            before.acts,
            env_after_all(es.drop_last(), env),
            brk,
        );
        LoweredAll { acts: v.acts, values: before.values.push(v.value) }
    }
}

/// The blocks of some conditions: for each, the one that is gone to if it does
/// not hold, and the one of its body.
pub open spec fn cond_blocks(count: nat, acts: Seq<Action>) -> Seq<Action>
    decreases count,
{
    if count == 0 {
        acts
    } else {
        cond_blocks((count - 1) as nat, acts).push(Action::CreateBlock).push(Action::CreateBlock)
    }
}

/// What some conditions and their bodies are lowered to, with their blocks from
/// `first` on, and going on at the block `end`.
pub open spec fn lower_arms(
    arms: Seq<(SExpr<'_>, SExpr<'_>)>,
    acts: Seq<Action>,
    env: EnvView,
    brk: Option<int>,
    first: int,
    end: int,
) -> Seq<Action>
    decreases arms,
{
    if arms.len() == 0 {
        acts
    } else {
        let i = arms.len() - 1;
        let (other, then) = (first + 2 * i, first + 2 * i + 1);
        let before = lower_arms(arms.drop_last(), acts, env, brk, first, end);
        let inner = env_after_arms(arms.drop_last(), env).enter();
        let cond = lower(arms[i].0, before, inner, brk);
        let body = lower(
            arms[i].1,
            cond.acts.push(Action::Brz(cond.value, other)).push(Action::Jump(then, None)).push(
                Action::SwitchToBlock(then),
            ),
            env_after(arms[i].0, inner),
            brk,
        );
        body.acts.push(Action::Jump(end, Some(body.value))).push(Action::SwitchToBlock(other))
    }
}

/// What the address of a place is lowered to.
pub open spec fn lower_place(
    place: LValue<'_>,
    acts: Seq<Action>,
    env: EnvView,
    brk: Option<int>,
) -> Lowered
    decreases place,
{
    match place {
        LValue::Symbol(name) => last(acts, Action::UseVar(resolve(env.scopes, name@)->0)),
        LValue::Attribute(..) => Lowered { acts, value: 0 },
        LValue::Deref(v) => {
            let p = lower_place(*v, acts, env, brk);
            if *v is Symbol {
                p
            } else {
                last(p.acts, Action::Load(IrType::I64, p.value, 0))
            }
        },
        LValue::Get(t, v, i) => {
            let index = lower(*i, acts, env, brk);
            let offset = last(index.acts, Action::ImulImm(index.value, size(t)));
            let p = lower_place(*v, offset.acts, env_after(*i, env), brk);
            let p = if *v is Symbol {
                p
            } else {
                last(p.acts, Action::Load(IrType::I64, p.value, 0))
            };
            let base = last(p.acts, Action::Load(IrType::I64, p.value, 8));
            last(base.acts, Action::Binary(BinaryOp::Iadd, base.value, offset.value))
        },
    }
}

/// The variable that an assignment to a name goes to.
pub open spec fn assigned(env: EnvView, name: Seq<char>) -> int {
    match resolve(env.scopes, name) {
        Some(v) => v,
        None => 0,
    }
}

/// Where an attribute of a slice stands in it: its length comes first, then its address.
pub open spec fn attribute_offset(name: Seq<char>) -> Option<i32> {
    if name == "len"@ || name == "cap"@ {
        Some(0)
    } else if name == "ptr"@ {
        Some(8)
    } else {
        None
    }
}

/// What a name is lowered to that stands for no variable: the address of a function.
pub open spec fn lower_function_address(
    t: Type<'_>,
    name: Seq<char>,
    acts: Seq<Action>,
) -> Lowered {
    let n = acts.len() as int;
    match t {
        Type::Function(a, r) => last(
            acts.push(Action::DeclareFunction(symbol(name, a@, *r), ir_types(a@), ir(*r))).push(
                Action::ImportFunction(n, ir(*r)),
            ),
            Action::FuncAddr(ir(t), n + 1),
        ),
        _ => Lowered { acts, value: 0 },
    }
}

/// What a text is lowered to: a data object with its bytes, and the address of
/// its length and its address on the stack. The object is named by a number.
pub open spec fn lower_text(t: IrType, text: Seq<char>, number: int, acts: Seq<Action>) -> Lowered {
    let n = acts.len() as int;
    let bytes = bytes_of(text);
    last(
        acts.push(Action::DeclareData(decimal(number as nat))).push(
            Action::DefineData(n, bytes),
        ).push(Action::ImportData(n)).push(
            Action::Iconst(IrType::I64, bytes.len() as i64),
        ).push(Action::GlobalValue(t, n + 2)).push(Action::CreateStackSlot(16)).push(
            Action::StackStore(n + 3, n + 5, 0),
        ).push(Action::StackStore(n + 4, n + 5, 8)),
        Action::StackAddr(t, n + 5, 0),
    )
}

/// What a call of a function is lowered to: by the address that a variable
/// holds, if its name stands for one, and by its symbol otherwise.
pub open spec fn lower_call(
    t: Type<'_>,
    name: Seq<char>,
    var: Option<int>,
    acts: Seq<Action>,
    args: Seq<int>,
) -> Lowered {
    let n = acts.len() as int;
    match t {
        Type::Function(a, r) => match var {
            Some(v) => last(
                acts.push(Action::ImportSignature(ir_types(a@), ir(*r))).push(
                    Action::UseVar(v),
                ).push(Action::CallIndirect(n, n + 1, args)),
                Action::InstResult(n + 2),
            ),
            None => last(
                acts.push(
                    Action::DeclareFunction(symbol(name, a@, *r), ir_types(a@), ir(*r)),
                ).push(Action::ImportFunction(n, ir(*r))).push(Action::Call(n + 1, args)),
                Action::InstResult(n + 2),
            ),
        },
        _ => Lowered { acts, value: 0 },
    }
}

/// What a call of a built-in function is lowered to: `t` is the type of the
/// call, `arg` that of its first argument.
pub open spec fn lower_builtin(
    op: Builtin,
    t: Type<'_>,
    arg: Type<'_>,
    acts: Seq<Action>,
    args: Seq<int>,
) -> Lowered {
    let n = acts.len() as int;
    match op {
        Builtin::Cast => Lowered { acts, value: args[0] },
        Builtin::Syscall => last(
            acts.push(Action::DeclareFunction("syscall_"@, syscall_params(), IrType::I64)).push(
                Action::ImportFunction(n, IrType::I64),
            ).push(Action::Call(n + 1, args)),
            Action::InstResult(n + 2),
        ),
        Builtin::Alloca => match t {
            Type::Pointer(_, v) => last(
                acts.push(Action::CreateStackSlot(byte_size(*v)->0)),
                Action::StackAddr(ir(t), n, 0),
            ),
            Type::Slice(_, v) => last(
                acts.push(Action::ImulImm(args[0], size(*v))).push(
                    Action::CompareIntImm(
                        IntCond::UnsignedLessThanOrEqual,
                        n,
                        SLICE_BYTES as i64,
                    ),
                ).push(Action::TrapzStackOverflow(n + 1)).push(
                    Action::CreateStackSlot(SLICE_BYTES),
                ).push(Action::StackAddr(ir(t), n + 3, 0)).push(Action::CreateStackSlot(16)).push(
                    Action::StackStore(args[0], n + 5, 0),
                ).push(Action::StackStore(n + 4, n + 5, 8)),
                Action::StackAddr(ir(t), n + 5, 0),
            ),
            _ => Lowered { acts, value: 0 },
        },
        Builtin::Get => last(
            acts.push(Action::Load(IrType::I64, args[0], 8)).push(
                Action::ImulImm(args[1], size(t)),
            ).push(Action::Binary(BinaryOp::Iadd, n, n + 1)),
            Action::Load(ir(t), n + 2, 0),
        ),
        Builtin::Less => last(
            acts,
            if is_float(t) {
                Action::FloatLessThan(args[0], args[1])
            } else if is_signed(t) {
                Action::CompareInt(IntCond::SignedLessThan, args[0], args[1])
            } else {
                Action::CompareInt(IntCond::UnsignedLessThan, args[0], args[1])
            },
        ),
        _ => last(acts, Action::Binary(binary_op(op, t), args[0], args[1])),
    }
}

/// The instruction of a built-in function of two operands.
pub open spec fn binary_op(op: Builtin, t: Type<'_>) -> BinaryOp {
    match op {
        Builtin::Add => if is_float(t) {
            BinaryOp::Fadd
        } else {
            BinaryOp::Iadd
        },
        Builtin::Sub => if is_float(t) {
            BinaryOp::Fsub
        } else {
            BinaryOp::Isub
        },
        Builtin::Mul => if is_float(t) {
            BinaryOp::Fmul
        } else {
            BinaryOp::Imul
        },
        Builtin::Div => if is_float(t) {
            BinaryOp::Fdiv
        } else if is_signed(t) {
            BinaryOp::Sdiv
        } else {
            BinaryOp::Udiv
        },
        Builtin::Rem => if is_signed(t) {
            BinaryOp::Srem
        } else {
            BinaryOp::Urem
        },
        Builtin::And => BinaryOp::Band,
        Builtin::Or => BinaryOp::Bor,
        Builtin::Xor => BinaryOp::Bxor,
        Builtin::Shl => BinaryOp::Ishl,
        _ => BinaryOp::Ushr,
    }
}

} // verus!
