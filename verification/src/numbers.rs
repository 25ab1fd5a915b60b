//! What holds of numbers in generated code.

use vstd::prelude::*;

use crate::ast::{SExpr, Type};
use crate::env::EnvView;
use crate::ir::{byte_size, ir_type};
use crate::lower::{builtin, ir, lower, lower_builtin, Builtin};
use crate::machine::instruction;
use crate::meaning::{
    fractional, signed_quotient, signed_rest, unsigned_quotient, unsigned_rest, whole, width, Val,
    World,
};
use crate::step::Action;

verus! {

/// The constant that an integer literal is lowered to is congruent to the literal
/// modulo two to the power of the word size, and so it is the literal itself where
/// that is below half of that. A literal of one bit is a truth value.
pub proof fn law_literals_keep_their_value(
    e: SExpr<'_>,
    acts: Seq<Action>,
    env: EnvView,
    brk: Option<int>,
)
    requires
        e is Int,
        ir_type(e->Int_meta.type_) is Some,
    ensures
        ({
            let low = lower(e, acts, env, brk);
            let (t, n) = (ir_type(e->Int_meta.type_)->0, e->Int_value as int);
            &&& low.value == acts.len()
            &&& low.acts.len() == acts.len() + 1
            &&& match low.acts[low.value] {
                Action::Iconst(u, c) => {
                    &&& u == t
                    &&& !(e->Int_meta.type_ matches Type::Int(_, 1))
                    &&& (c - n) % 0x1_0000_0000_0000_0000 == 0
                    &&& n < 0x8000_0000_0000_0000 ==> c == n
                },
                Action::Bconst(u, b) => {
                    &&& u == t
                    &&& e->Int_meta.type_ matches Type::Int(_, 1)
                    &&& b <==> n != 0
                },
                _ => false,
            }
        }),
{
    let value = e->Int_value;
    assert(value < 0x8000_0000_0000_0000u64 ==> (value as i64) == value) by (bit_vector);
    assert(value >= 0x8000_0000_0000_0000u64 ==> (value as i64) == value
        - 0x1_0000_0000_0000_0000) by (bit_vector);
}

/// The instruction that a call of `/` or `%` is lowered to gives the quotient or
/// the remainder of its operands: the signed one for signed types of every width,
/// and the unsigned one for unsigned types.
pub proof fn law_quotients_go_by_sign(
    w: World,
    signed: bool,
    bits: u8,
    arg: Type<'_>,
    acts: Seq<Action>,
    args: Seq<int>,
    x: Val,
    y: Val,
)
    requires
        args.len() >= 2,
        x.t == y.t,
        whole(x.t),
    ensures
        ({
            let t = Type::Int(signed, bits);
            let div = lower_builtin(builtin("/"@)->0, t, arg, acts, args);
            let rem = lower_builtin(builtin("%"@)->0, t, arg, acts, args);
            &&& builtin("/"@) is Some && builtin("%"@) is Some
            &&& div.acts[div.value] matches Action::Binary(op, a, b) && a == args[0] && b == args[1]
                && instruction(w, op, x, y) == if signed {
                signed_quotient(x, y)
            } else {
                unsigned_quotient(x, y)
            }
            &&& rem.acts[rem.value] matches Action::Binary(op, a, b) && a == args[0] && b == args[1]
                && instruction(w, op, x, y) == if signed {
                signed_rest(x, y)
            } else {
                unsigned_rest(x, y)
            }
        }),
{
    lemma_division_names();
}

proof fn lemma_division_names()
    ensures
        builtin("/"@) == Some(Builtin::Div),
        builtin("%"@) == Some(Builtin::Rem),
{
    reveal_strlit("+");
    reveal_strlit("-");
    reveal_strlit("*");
    reveal_strlit("/");
    reveal_strlit("%");
    assert("+"@[0] == '+');
    assert("-"@[0] == '-');
    assert("*"@[0] == '*');
    assert("/"@[0] == '/');
    assert("%"@[0] == '%');
}

/// A value of a type is held by as many bits as the type has: integers by integers,
/// a single bit and the empty value by a truth value, and addresses by words.
/// In memory it takes the bytes that hold these bits, and the empty value none.
pub proof fn law_types_keep_their_width(t: Type<'_>)
    ensures
        ir_type(t) is Some <==> match t {
            Type::Int(_, b) => b == 1 || b == 8 || b == 16 || b == 32 || b == 64,
            Type::Tuple(v) => v@.len() == 0,
            Type::Struct(..) | Type::Generic(_) => false,
            _ => true,
        },
        ir_type(t) matches Some(k) ==> match t {
            Type::Int(_, b) => width(k) == b && !fractional(k),
            Type::F32 => width(k) == 32 && fractional(k),
            Type::F64 => width(k) == 64 && fractional(k),
            Type::Tuple(_) => width(k) == 1,
            _ => width(k) == 64 && whole(k),
        },
        byte_size(t) is Some <==> ir_type(t) is Some && !(t is Function),
        byte_size(t) matches Some(n) ==> if t is Tuple {
            n == 0
        } else {
            8 * n - 8 < width(ir(t)) <= 8 * n
        },
{
}

} // verus!
