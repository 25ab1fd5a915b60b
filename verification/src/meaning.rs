//! What expressions mean, apart from how they are compiled.
//!
//! An expression is evaluated with variables that are known by their names, in
//! scopes, and with a memory. What lies outside the program, such as what a
//! function does that is called, is left open: it is one of all worlds.

use vstd::prelude::*;
use vstd::utf8::encode_utf8;

use crate::ast::{LValue, SExpr, Type};
use crate::ir::{byte_size, ir_types, IrType};
use crate::lower::ir;
use crate::mangle::symbol;
use crate::tally::{contains, contains_all, contains_arms, Tally};

verus! {

/// What is in memory, by addresses.
pub type Mem = Map<int, u8>;

/// A value: its type, and its bits as a number.
pub struct Val {
    pub t: IrType,
    pub bits: int,
}

/// What a program finds outside of itself.
pub struct World {
    /// What is loaded as a type from an address.
    pub load: spec_fn(Mem, IrType, int) -> int,
    /// Memory after bits of a type were stored at an address.
    pub store: spec_fn(Mem, IrType, int, int) -> Mem,
    /// What the function of a symbol gives for arguments, and memory after it.
    pub call: spec_fn(Mem, Seq<char>, Seq<IrType>, IrType, Seq<Val>) -> (int, Mem),
    /// The same, of the function at an address.
    pub call_at: spec_fn(Mem, int, Seq<IrType>, IrType, Seq<Val>) -> (int, Mem),
    /// The address of the stack slot of a number, which has so many bytes.
    pub slot: spec_fn(int, int) -> int,
    /// The address of the data object of a number, which holds some bytes.
    pub text: spec_fn(int, Seq<u8>) -> int,
    /// The address of the function of a symbol.
    pub function: spec_fn(Seq<char>) -> int,
    /// What two numbers of a type give, added, subtracted, multiplied or divided.
    pub float: spec_fn(char, IrType, int, int) -> int,
    /// Whether a number of a type is less than another one.
    pub float_less: spec_fn(IrType, int, int) -> bool,
}

/// How many values a type has.
pub open spec fn range(t: IrType) -> int {
    match t {
        IrType::B1 => 2,
        IrType::I8 => 0x100,
        IrType::I16 => 0x1_0000,
        IrType::I32 | IrType::F32 => 0x1_0000_0000,
        IrType::I64 | IrType::F64 => 0x1_0000_0000_0000_0000,
    }
}

/// How many bits a type has.
pub open spec fn width(t: IrType) -> int {
    match t {
        IrType::B1 => 1,
        IrType::I8 => 8,
        IrType::I16 => 16,
        IrType::I32 | IrType::F32 => 32,
        IrType::I64 | IrType::F64 => 64,
    }
}

/// Whether a type is one of integers.
pub open spec fn whole(t: IrType) -> bool {
    t is I8 || t is I16 || t is I32 || t is I64
}

/// Whether a type is one of numbers with a fraction.
pub open spec fn fractional(t: IrType) -> bool {
    t is F32 || t is F64
}

/// A number as a value of a type: as much of it as the type holds.
pub open spec fn wrap(t: IrType, n: int) -> Val {
    Val { t, bits: n % range(t) }
}

/// A truth value.
pub open spec fn truth(b: bool) -> Val {
    Val {
        t: IrType::B1,
        bits: if b {
            1
        } else {
            0
        },
    }
}

/// The empty value of a type.
pub open spec fn zero(t: IrType) -> Val {
    Val { t, bits: 0 }
}

/// What bits stand for as a signed number: the upper half of them is negative.
pub open spec fn signed_of(v: Val) -> int {
    if 2 * v.bits >= range(v.t) {
        v.bits - range(v.t)
    } else {
        v.bits
    }
}

/// The quotient of two numbers, rounded towards zero.
pub open spec fn quotient(a: int, b: int) -> int {
    if a >= 0 && b >= 0 {
        a / b
    } else if a < 0 && b < 0 {
        (-a) / (-b)
    } else if a < 0 {
        -((-a) / b)
    } else {
        -(a / (-b))
    }
}

/// The signed quotient, if there is one of the type.
pub open spec fn signed_quotient(x: Val, y: Val) -> Option<Val> {
    let q = quotient(signed_of(x), signed_of(y));
    if y.bits == 0 || 2 * q >= range(x.t) {
        None
    } else {
        Some(wrap(x.t, q))
    }
}

/// The unsigned quotient, if there is one.
pub open spec fn unsigned_quotient(x: Val, y: Val) -> Option<Val> {
    if y.bits == 0 {
        None
    } else {
        Some(wrap(x.t, x.bits / y.bits))
    }
}

/// What is left of a signed division, with the sign of what was divided.
pub open spec fn signed_rest(x: Val, y: Val) -> Option<Val> {
    let (a, b) = (signed_of(x), signed_of(y));
    if y.bits == 0 {
        None
    } else {
        Some(wrap(x.t, a - b * quotient(a, b)))
    }
}

/// What is left of an unsigned division.
pub open spec fn unsigned_rest(x: Val, y: Val) -> Option<Val> {
    if y.bits == 0 {
        None
    } else {
        Some(wrap(x.t, x.bits % y.bits))
    }
}

/// The bits that both values have.
pub open spec fn both_bits(x: Val, y: Val) -> Val {
    wrap(x.t, ((x.bits as u64) & (y.bits as u64)) as int)
}

/// The bits that either value has.
pub open spec fn either_bits(x: Val, y: Val) -> Val {
    wrap(x.t, ((x.bits as u64) | (y.bits as u64)) as int)
}

/// The bits that one value has and the other has not.
pub open spec fn one_bits(x: Val, y: Val) -> Val {
    wrap(x.t, ((x.bits as u64) ^ (y.bits as u64)) as int)
}

/// The bits of a value, further up by as much as another one says.
pub open spec fn bits_up(x: Val, y: Val) -> Val {
    wrap(x.t, ((x.bits as u64) << ((y.bits % width(x.t)) as u64)) as int)
}

/// The bits of a value, further down by as much as another one says.
pub open spec fn bits_down(x: Val, y: Val) -> Val {
    wrap(x.t, ((x.bits as u64) >> ((y.bits % width(x.t)) as u64)) as int)
}

/// Names and what they stand for.
pub type Names = Map<Seq<char>, int>;

/// Where a program is: the scopes that it is in, the innermost one last, what its
/// variables hold, how many of those there were, and what is in memory.
pub struct Rt {
    pub scopes: Seq<Names>,
    pub store: Map<int, Val>,
    pub next: int,
    pub mem: Mem,
}

/// The variable of a name: that of the innermost scope that has the name.
pub open spec fn lookup(scopes: Seq<Names>, name: Seq<char>) -> Option<int>
    decreases scopes.len(),
{
    if scopes.len() == 0 {
        None
    } else if scopes.last().contains_key(name) {
        Some(scopes.last()[name])
    } else {
        lookup(scopes.drop_last(), name)
    }
}

impl Rt {
    /// In a new scope.
    pub open spec fn inside(self) -> Rt {
        Rt { scopes: self.scopes.push(Map::empty()), ..self }
    }

    /// Back in the scopes of before.
    pub open spec fn back(self, before: Rt) -> Rt {
        Rt { scopes: before.scopes, ..self }
    }

    /// With a new variable in the innermost scope.
    pub open spec fn declare(self, name: Seq<char>, v: Val) -> Rt {
        Rt {
            scopes: self.scopes.update(
                self.scopes.len() - 1,
                self.scopes.last().insert(name, self.next),
            ),
            store: self.store.insert(self.next, v),
            next: self.next + 1,
            ..self
        }
    }

    /// With a new value for a variable.
    pub open spec fn assign(self, l: int, v: Val) -> Rt {
        Rt { store: self.store.insert(l, v), ..self }
    }

    /// With other memory.
    pub open spec fn with(self, mem: Mem) -> Rt {
        Rt { mem, ..self }
    }
}

/// What an expression comes to.
pub enum Out {
    /// It gives a value.
    Gives(Val, Rt),
    /// It ends the loop that it is in, with a value.
    Leaves(Val, Rt),
    /// Nothing is said of it: the program stops in it, or has not come to its end
    /// in the time that it was given, or it makes no sense.
    Stops,
}

/// What several expressions come to.
pub enum Outs {
    Give(Seq<Val>, Rt),
    Leave(Val, Rt),
    Stop,
}

/// What conditions with their bodies come to.
pub enum Choice {
    /// One of the conditions held; this is what its body comes to.
    Taken(Out),
    /// None of them held.
    Open(Rt),
}

/// The value of an integer literal of a type.
pub open spec fn literal(t: Type<'_>, value: u64) -> Val {
    if t matches Type::Int(_, 1) {
        Val { t: ir(t), bits: truth(value != 0).bits }
    } else {
        wrap(ir(t), value as int)
    }
}

/// How many bytes a value of a type takes in memory.
pub open spec fn bytes(t: Type<'_>) -> int {
    match t {
        Type::Int(_, b) => (b as int + 7) / 8,
        Type::F32 => 4,
        Type::F64 => 8,
        Type::Tuple(_) => 0,
        _ => 8,
    }
}

/// Whether a type is one of signed integers.
pub open spec fn signed(t: Type<'_>) -> bool {
    exists|bits: u8| t == Type::Int(true, bits)
}

/// What an operation on two values gives, on numbers or on integers, as the type
/// of the operation says.
pub open spec fn numeric(
    w: World,
    t: Type<'_>,
    key: char,
    x: Val,
    y: Val,
    n: Option<Val>,
) -> Option<Val> {
    if x.t != y.t {
        None
    } else if t is F32 || t is F64 {
        if fractional(x.t) {
            Some(Val { t: x.t, bits: (w.float)(key, x.t, x.bits, y.bits) })
        } else {
            None
        }
    } else if whole(x.t) {
        n
    } else {
        None
    }
}

/// What an operation on the bits of two values gives.
pub open spec fn bitwise(x: Val, y: Val, v: Val) -> Option<Val> {
    if x.t == y.t && !fractional(x.t) {
        Some(v)
    } else {
        None
    }
}

/// What a shift of a value gives.
pub open spec fn shifted(x: Val, y: Val, v: Val) -> Option<Val> {
    if whole(x.t) && whole(y.t) {
        Some(v)
    } else {
        None
    }
}

/// A value, if there is one, and otherwise nothing.
pub open spec fn given(v: Option<Val>, rt: Rt) -> Out {
    match v {
        Some(v) => Out::Gives(v, rt),
        None => Out::Stops,
    }
}

/// Whether a value is less than another one, as the type of the comparison says.
pub open spec fn less(w: World, t: Type<'_>, x: Val, y: Val) -> Option<Val> {
    if x.t != y.t {
        None
    } else if t is F32 || t is F64 {
        if fractional(x.t) {
            Some(truth((w.float_less)(x.t, x.bits, y.bits)))
        } else {
            None
        }
    } else if !whole(x.t) {
        None
    } else if signed(t) {
        Some(truth(signed_of(x) < signed_of(y)))
    } else {
        Some(truth(x.bits < y.bits))
    }
}

/// The address of an element of a slice: the slice has the address of its
/// elements behind its length.
pub open spec fn element(w: World, t: Type<'_>, slice: Val, index: Val, mem: Mem) -> Val {
    wrap(IrType::I64, (w.load)(mem, IrType::I64, slice.bits + 8) + index.bits * bytes(t))
}

/// What a call of a function gives.
pub open spec fn called(r: IrType, v: (int, Mem), rt: Rt) -> Out {
    Out::Gives(Val { t: r, bits: v.0 }, rt.with(v.1))
}

/// What a call comes to, once its arguments are there: `t` is the type of the
/// call, `callee` that of the name. So many stack slots were made before.
pub open spec fn perform(
    w: World,
    slots: int,
    t: Type<'_>,
    callee: Type<'_>,
    name: Seq<char>,
    vs: Seq<Val>,
    rt: Rt,
) -> Out {
    let (x, y) = (vs[0], vs[1]);
    if name == "+"@ {
        operation(vs, numeric(w, t, '+', x, y, Some(wrap(x.t, x.bits + y.bits))), rt)
    } else if name == "-"@ {
        operation(vs, numeric(w, t, '-', x, y, Some(wrap(x.t, x.bits - y.bits))), rt)
    } else if name == "*"@ {
        operation(vs, numeric(w, t, '*', x, y, Some(wrap(x.t, x.bits * y.bits))), rt)
    } else if name == "/"@ {
        let q = if signed(t) {
            signed_quotient(x, y)
        } else {
            unsigned_quotient(x, y)
        };
        operation(vs, numeric(w, t, '/', x, y, q), rt)
    } else if name == "%"@ {
        let q = if signed(t) {
            signed_rest(x, y)
        } else {
            unsigned_rest(x, y)
        };
        operation(
            vs,
            if x.t == y.t && whole(x.t) {
                q
            } else {
                None
            },
            rt,
        )
    } else if name == "syscall"@ {
        let params = Seq::new(7, |i: int| IrType::I64);
        called(IrType::I64, (w.call)(rt.mem, "syscall_"@, params, IrType::I64, vs), rt)
    } else if name == "cast"@ {
        if vs.len() == 0 {
            Out::Stops
        } else {
            Out::Gives(x, rt)
        }
    } else if name == "alloca"@ {
        match t {
            Type::Pointer(_, v) => reserve(w, slots, t, *v, rt),
            Type::Slice(_, v) => if vs.len() == 0 {
                Out::Stops
            } else {
                reserve_slice(w, slots, t, *v, x, rt)
            },
            _ => Out::Stops,
        }
    } else if name == "get"@ {
        if x.t is I64 && y.t is I64 && byte_size(t) is Some {
            let at = element(w, t, x, y, rt.mem);
            operation(vs, Some(Val { t: ir(t), bits: (w.load)(rt.mem, ir(t), at.bits) }), rt)
        } else {
            Out::Stops
        }
    } else if name == "&"@ {
        operation(vs, bitwise(x, y, both_bits(x, y)), rt)
    } else if name == "|"@ {
        operation(vs, bitwise(x, y, either_bits(x, y)), rt)
    } else if name == "^"@ {
        operation(vs, bitwise(x, y, one_bits(x, y)), rt)
    } else if name == "<<"@ {
        operation(vs, shifted(x, y, bits_up(x, y)), rt)
    } else if name == ">>"@ {
        operation(vs, shifted(x, y, bits_down(x, y)), rt)
    } else if name == "<"@ {
        operation(vs, less(w, t, x, y), rt)
    } else {
        match callee {
            Type::Function(a, r) => match lookup(rt.scopes, name) {
                Some(l) => called(
                    ir(*r),
                    (w.call_at)(rt.mem, rt.store[l].bits, ir_types(a@), ir(*r), vs),
                    rt,
                ),
                None => called(
                    ir(*r),
                    (w.call)(rt.mem, symbol(name, a@, *r), ir_types(a@), ir(*r), vs),
                    rt,
                ),
            },
            _ => Out::Stops,
        }
    }
}

/// A place on the stack for a value of the type `v`; `slots` were made before.
pub open spec fn reserve(w: World, slots: int, t: Type<'_>, v: Type<'_>, rt: Rt) -> Out {
    if byte_size(v) is Some {
        Out::Gives(Val { t: ir(t), bits: (w.slot)(slots, bytes(v)) }, rt)
    } else {
        Out::Stops
    }
}

/// A slice on the stack for so many values of the type `v`, if they fit.
pub open spec fn reserve_slice(
    w: World,
    slots: int,
    t: Type<'_>,
    v: Type<'_>,
    count: Val,
    rt: Rt,
) -> Out {
    if byte_size(v) is Some && count.t is I64 && wrap(IrType::I64, count.bits * bytes(v)).bits
        <= 512 {
        let at = Val { t: ir(t), bits: (w.slot)(slots, 512) };
        let slice = (w.slot)(slots + 1, 16);
        Out::Gives(Val { t: ir(t), bits: slice }, rt.with(slice_at(w, rt.mem, slice, count, at)))
    } else {
        Out::Stops
    }
}

/// Memory with a slice at an address: its length, and the address of its elements.
pub open spec fn slice_at(w: World, mem: Mem, slice: int, len: Val, at: Val) -> Mem {
    let mem = (w.store)(mem, len.t, slice, len.bits);
    (w.store)(mem, at.t, slice + 8, at.bits)
}

/// A text: a slice on the stack of the bytes of a data object. So much was made before.
pub open spec fn text(w: World, seen: Tally, t: Type<'_>, value: Seq<char>, rt: Rt) -> Out {
    let bytes = encode_utf8(value);
    if bytes.len() < 0x8000_0000_0000_0000 {
        let len = Val { t: IrType::I64, bits: bytes.len() as int };
        let at = Val { t: ir(t), bits: (w.text)(seen.texts, bytes) };
        let slice = (w.slot)(seen.slots, 16);
        Out::Gives(Val { t: ir(t), bits: slice }, rt.with(slice_at(w, rt.mem, slice, len, at)))
    } else {
        Out::Stops
    }
}

/// An operation needs two operands.
pub open spec fn operation(vs: Seq<Val>, v: Option<Val>, rt: Rt) -> Out {
    if vs.len() < 2 {
        Out::Stops
    } else {
        given(v, rt)
    }
}

/// Where an attribute of a slice is found in it.
pub open spec fn field(name: Seq<char>) -> Option<int> {
    if name == "len"@ || name == "cap"@ {
        Some(0)
    } else if name == "ptr"@ {
        Some(8)
    } else {
        None
    }
}

/// What an expression comes to, in a function that made so much on the stack and
/// so many data objects before it; a loop goes round at most `fuel` times.
pub open spec fn eval(w: World, e: SExpr<'_>, seen: Tally, rt: Rt, fuel: nat) -> Out
    decreases fuel, e,
{
    match e {
        SExpr::Int { meta, value } => Out::Gives(literal(meta.type_, value), rt),
        SExpr::Float { meta, value } => if meta.type_ is F32 {
            Out::Gives(Val { t: IrType::F32, bits: value.single as int }, rt)
        } else {
            Out::Gives(Val { t: IrType::F64, bits: value.double as int }, rt)
        },
        SExpr::Nil { meta } => Out::Gives(zero(ir(meta.type_)), rt),
        SExpr::Symbol { meta, value } => match lookup(rt.scopes, value@) {
            Some(l) => Out::Gives(rt.store[l], rt),
            None => match meta.type_ {
                Type::Function(a, r) => Out::Gives(
                    Val { t: IrType::I64, bits: (w.function)(symbol(value@, a@, *r)) },
                    rt,
                ),
                _ => Out::Stops,
            },
        },
        SExpr::Str { meta, value } => text(w, seen, meta.type_, value@, rt),
        SExpr::Sequence { values, .. } => match eval_all(w, values@, seen, rt.inside(), fuel) {
            Outs::Give(vs, after) => if vs.len() == 0 {
                Out::Stops
            } else {
                Out::Gives(vs.last(), after.back(rt))
            },
            Outs::Leave(v, after) => Out::Leaves(v, after),
            Outs::Stop => Out::Stops,
        },
        SExpr::Cond { meta, values, elsy } => match eval_arms(w, values@, seen, rt, fuel) {
            Choice::Taken(out) => match out {
                Out::Gives(v, after) => Out::Gives(v, after.back(rt)),
                _ => out,
            },
            Choice::Open(after) => match elsy {
                Some(e) => match eval(
                    w,
                    *e,
                    seen.plus(contains_arms(values@)),
                    after.inside(),
                    fuel,
                ) {
                    Out::Gives(v, after) => Out::Gives(v, after.back(rt)),
                    out => out,
                },
                None => Out::Gives(truth(false), after),
            },
        },
        SExpr::Loop { meta, value } => match eval(w, *value, seen, rt.inside(), fuel) {
            Out::Leaves(v, after) => Out::Gives(v, after.back(rt)),
            Out::Gives(_, after) => if fuel == 0 {
                Out::Stops
            } else {
                eval(w, e, seen, after.back(rt), (fuel - 1) as nat)
            },
            Out::Stops => Out::Stops,
        },
        SExpr::Break { meta, value } => match value {
            Some(e) => match eval(w, *e, seen, rt, fuel) {
                Out::Gives(v, after) => Out::Leaves(v, after),
                out => out,
            },
            None => Out::Leaves(zero(ir(meta.type_)), rt),
        },
        SExpr::Type { value, .. } => eval(w, *value, seen, rt, fuel),
        SExpr::FuncCall { meta, func, values } => match eval_all(w, values@, seen, rt, fuel) {
            Outs::Give(vs, after) => match *func {
                SExpr::Symbol { meta: callee, value: name } => perform(
                    w,
                    seen.plus(contains_all(values@)).slots,
                    meta.type_,
                    callee.type_,
                    name@,
                    vs,
                    after,
                ),
                _ => Out::Stops,
            },
            Outs::Leave(v, after) => Out::Leaves(v, after),
            Outs::Stop => Out::Stops,
        },
        SExpr::Declare { variable, value, .. } => match eval(w, *value, seen, rt, fuel) {
            Out::Gives(v, after) => Out::Gives(v, after.declare(variable@, v)),
            out => out,
        },
        SExpr::Assign { lvalue, value, .. } => match eval(w, *value, seen, rt, fuel) {
            Out::Gives(v, after) => match lvalue {
                LValue::Symbol(name) => match lookup(rt.scopes, name@) {
                    Some(l) => Out::Gives(v, after.assign(l, v)),
                    None => Out::Stops,
                },
                _ => match address(w, lvalue, seen.plus(contains(*value)), after, fuel) {
                    Out::Gives(at, last) => Out::Gives(
                        v,
                        last.with((w.store)(last.mem, v.t, at.bits, v.bits)),
                    ),
                    out => out,
                },
            },
            out => out,
        },
        SExpr::Attribute { meta, top, attrs } => match eval(w, *top, seen, rt, fuel) {
            Out::Gives(v, after) => if attrs@.len() == 0 {
                Out::Stops
            } else {
                match field(attrs@[0]@) {
                    Some(o) => Out::Gives(
                        Val {
                            t: ir(meta.type_),
                            bits: (w.load)(after.mem, ir(meta.type_), v.bits + o),
                        },
                        after,
                    ),
                    None => Out::Stops,
                }
            },
            out => out,
        },
        _ => Out::Stops,
    }
}

/// What several expressions come to, one after the other.
pub open spec fn eval_all(w: World, es: Seq<SExpr<'_>>, seen: Tally, rt: Rt, fuel: nat) -> Outs
    decreases fuel, es,
{
    if es.len() == 0 {
        Outs::Give(seq![], rt)
    } else {
        match eval_all(w, es.drop_last(), seen, rt, fuel) {
            Outs::Give(vs, after) => match eval(
                w,
                es[es.len() - 1],
                seen.plus(contains_all(es.drop_last())),
                after,
                fuel,
            ) {
                Out::Gives(v, last) => Outs::Give(vs.push(v), last),
                Out::Leaves(v, last) => Outs::Leave(v, last),
                Out::Stops => Outs::Stop,
            },
            out => out,
        }
    }
}

/// What some conditions and their bodies come to: the body of the first condition
/// that holds is done, in a scope that it shares with its condition.
pub open spec fn eval_arms(
    w: World,
    arms: Seq<(SExpr<'_>, SExpr<'_>)>,
    seen: Tally,
    rt: Rt,
    fuel: nat,
) -> Choice
    decreases fuel, arms,
{
    if arms.len() == 0 {
        Choice::Open(rt)
    } else {
        match eval_arms(w, arms.drop_last(), seen, rt, fuel) {
            Choice::Open(before) => match eval(
                w,
                arms[arms.len() - 1].0,
                seen.plus(contains_arms(arms.drop_last())),
                before.inside(),
                fuel,
            ) {
                Out::Gives(c, after) => if c.bits == 0 {
                    Choice::Open(after.back(before))
                } else {
                    Choice::Taken(
                        eval(
                            w,
                            arms[arms.len() - 1].1,
                            seen.plus(contains_arms(arms.drop_last())).plus(
                                contains(arms[arms.len() - 1].0),
                            ),
                            after,
                            fuel,
                        ),
                    )
                },
                out => Choice::Taken(out),
            },
            choice => choice,
        }
    }
}

/// The address of a place: of what a pointer points to, it is the pointer itself.
pub open spec fn address(w: World, place: LValue<'_>, seen: Tally, rt: Rt, fuel: nat) -> Out
    decreases fuel, place, 0nat,
{
    match place {
        LValue::Deref(v) => contents(w, *v, seen, rt, fuel),
        LValue::Get(t, v, i) => match eval(w, *i, seen, rt, fuel) {
            Out::Gives(index, after) => match contents(
                w,
                *v,
                seen.plus(contains(*i)),
                after,
                fuel,
            ) {
                Out::Gives(slice, last) => if index.t is I64 && byte_size(t) is Some {
                    Out::Gives(element(w, t, slice, index, last.mem), last)
                } else {
                    Out::Stops
                },
                out => out,
            },
            out => out,
        },
        _ => Out::Stops,
    }
}

/// What a place holds that holds a pointer or a slice.
pub open spec fn contents(w: World, place: LValue<'_>, seen: Tally, rt: Rt, fuel: nat) -> Out
    decreases fuel, place, 1nat,
{
    match place {
        LValue::Symbol(name) => match lookup(rt.scopes, name@) {
            Some(l) => Out::Gives(rt.store[l], rt),
            None => Out::Stops,
        },
        _ => match address(w, place, seen, rt, fuel) {
            Out::Gives(at, after) => Out::Gives(
                Val { t: IrType::I64, bits: (w.load)(after.mem, IrType::I64, at.bits) },
                after,
            ),
            out => out,
        },
    }
}

} // verus!
