//! The calls on Cranelift's function builder.
//!
//! Values, blocks, slots and the like go by their numbers. Each call is taken
//! only where the builder's assertions hold and the function is small enough for
//! its numbers, and is added to the calls that made the function. What it gives
//! is what `State::gives` says: things are numbered in the order in which they
//! are made, each kind for itself.

use vstd::prelude::*;

use cranelift::codegen::ir::{FuncRef, Function, GlobalValue, Inst, SigRef, StackSlot};
use cranelift::prelude::{
    Block, EntityRef, FloatCC, FunctionBuilder, FunctionBuilderContext, Ieee32, Ieee64, InstBuilder,
    IntCC, MemFlags, Signature, StackSlotData, StackSlotKind, TrapCode, Type as ClifType, Value,
    Variable,
};

use crate::clif::{builder_code, called, function_code, ir_of, signature_view, takes};
use crate::protocol::Code;
use crate::step::{int_option, ints, Action, BinaryOp, Convention, IntCond};

verus! {

/// Whether the buffers of a builder are empty.
pub uninterp spec fn unused(c: FunctionBuilderContext) -> bool;

/// `FunctionBuilderContext::new`: the buffers are empty.
#[verifier::external_body]
pub(crate) fn new_builder_context() -> (r: FunctionBuilderContext)
    ensures
        unused(r),
{
    FunctionBuilderContext::new()
}

/// `FunctionBuilder::new`: starts to build a function that has its signature
/// and nothing else. It asserts that the buffers are empty.
#[verifier::external_body]
pub(crate) fn new_builder<'a>(f: &'a mut Function, c: &'a mut FunctionBuilderContext) -> (r:
    FunctionBuilder<'a>)
    requires
        function_code(*old(f)).body.len() == 0,
        function_code(*old(f)).signature.returns.len() == 1,
        unused(*old(c)),
    ensures
        builder_code(r) == (Code {
            signature: function_code(*old(f)).signature,
            body: seq![
                (
                    Action::Begin(
                        function_code(*old(f)).signature.params,
                        function_code(*old(f)).signature.returns[0],
                    ),
                    0int,
                ),
            ],
        }),
{
    FunctionBuilder::new(f, c)
}

/// A copy of the `func` of a `FunctionBuilder`.
#[verifier::external_body]
pub(crate) fn built(b: &FunctionBuilder<'_>) -> (r: Function)
    ensures
        function_code(r) == builder_code(*b),
{
    b.func.clone()
}

/// To compare two integers.
pub open spec fn int_comparison(c: IntCond, x: usize, y: usize) -> Action {
    Action::CompareInt(c, x as int, y as int)
}

/// To compare an integer with a constant.
pub open spec fn imm_comparison(c: IntCond, x: usize, k: i64) -> Action {
    Action::CompareIntImm(c, x as int, k)
}

/// To compare two numbers.
pub open spec fn float_comparison(x: usize, y: usize) -> Action {
    Action::FloatLessThan(x as int, y as int)
}

/// `FunctionBuilder::create_block`: makes a block, under the next number.
#[verifier::external_body]
pub(crate) fn create_block(b: &mut FunctionBuilder<'_>) -> (r: usize)
    requires
        takes(builder_code(*old(b)), Action::CreateBlock),
    ensures
        called(builder_code(*old(b)), Action::CreateBlock, r, builder_code(*final(b))),
{
    b.create_block().index()
}

/// `FunctionBuilder::switch_to_block`: goes on at the end of a block. It asserts
/// that the block it leaves is complete or empty, and that the other is not
/// complete.
#[verifier::external_body]
pub(crate) fn switch_to_block(b: &mut FunctionBuilder<'_>, block: usize)
    requires
        takes(builder_code(*old(b)), Action::SwitchToBlock(block as int)),
    ensures
        called(
            builder_code(*old(b)),
            Action::SwitchToBlock(block as int),
            0,
            builder_code(*final(b)),
        ),
{
    b.switch_to_block(Block::new(block));
}

/// `FunctionBuilder::append_block_params_for_function_params`: gives a block the
/// parameters of the function, after its own ones.
#[verifier::external_body]
pub(crate) fn append_function_params(b: &mut FunctionBuilder<'_>, block: usize)
    requires
        takes(builder_code(*old(b)), Action::AppendFunctionParams(block as int)),
    ensures
        called(
            builder_code(*old(b)),
            Action::AppendFunctionParams(block as int),
            0,
            builder_code(*final(b)),
        ),
{
    b.append_block_params_for_function_params(Block::new(block));
}

/// `FunctionBuilder::append_block_param`: gives a block one more parameter. It
/// asserts that the block was not gone to yet.
#[verifier::external_body]
pub(crate) fn append_block_param(b: &mut FunctionBuilder<'_>, block: usize, t: ClifType) -> (r: usize)
    requires
        takes(builder_code(*old(b)), Action::AppendBlockParam(block as int, ir_of(t))),
    ensures
        called(
            builder_code(*old(b)),
            Action::AppendBlockParam(block as int, ir_of(t)),
            r,
            builder_code(*final(b)),
        ),
{
    b.append_block_param(Block::new(block), t).index()
}

/// `FunctionBuilder::block_params`: the parameter of a block at a position, which
/// is the same each time.
#[verifier::external_body]
pub(crate) fn block_param(b: &mut FunctionBuilder<'_>, block: usize, i: usize) -> (r: usize)
    requires
        takes(builder_code(*old(b)), Action::BlockParam(block as int, i as int)),
    ensures
        called(
            builder_code(*old(b)),
            Action::BlockParam(block as int, i as int),
            r,
            builder_code(*final(b)),
        ),
{
    b.block_params(Block::new(block))[i].index()
}

/// `FunctionBuilder::declare_var`: declares a variable, which may be done once.
#[verifier::external_body]
pub(crate) fn declare_var(b: &mut FunctionBuilder<'_>, v: usize, t: ClifType)
    requires
        takes(builder_code(*old(b)), Action::DeclareVar(v as int, ir_of(t))),
    ensures
        called(
            builder_code(*old(b)),
            Action::DeclareVar(v as int, ir_of(t)),
            0,
            builder_code(*final(b)),
        ),
{
    b.declare_var(Variable::new(v), t);
}

/// `FunctionBuilder::def_var`: gives a variable a value, which must have the
/// variable's type.
#[verifier::external_body]
pub(crate) fn def_var(b: &mut FunctionBuilder<'_>, v: usize, x: usize)
    requires
        takes(builder_code(*old(b)), Action::DefVar(v as int, x as int)),
    ensures
        called(
            builder_code(*old(b)),
            Action::DefVar(v as int, x as int),
            0,
            builder_code(*final(b)),
        ),
{
    b.def_var(Variable::new(v), Value::new(x));
}

/// `FunctionBuilder::use_var`: the value that a variable has here, of the type it
/// was declared with. Where the variable was given a value in the current block,
/// or was used there before, it is that value; otherwise it is a new value, a
/// parameter of the block, since blocks are sealed all together in the end. It
/// asserts that a block has no more parameters than can be counted in sixteen
/// bits.
#[verifier::external_body]
pub(crate) fn use_var(b: &mut FunctionBuilder<'_>, v: usize) -> (r: usize)
    requires
        takes(builder_code(*old(b)), Action::UseVar(v as int)),
    ensures
        called(builder_code(*old(b)), Action::UseVar(v as int), r, builder_code(*final(b))),
{
    b.use_var(Variable::new(v)).index()
}

/// `FunctionBuilder::create_stack_slot`: reserves bytes on the stack, in a slot
/// with the next number.
#[verifier::external_body]
pub(crate) fn create_stack_slot(b: &mut FunctionBuilder<'_>, n: u32) -> (r: usize)
    requires
        takes(builder_code(*old(b)), Action::CreateStackSlot(n)),
    ensures
        called(builder_code(*old(b)), Action::CreateStackSlot(n), r, builder_code(*final(b))),
{
    b.create_stack_slot(StackSlotData::new(StackSlotKind::ExplicitSlot, n)).index()
}

/// `FunctionBuilder::import_signature`: makes a signature known to the function,
/// under the next number.
#[verifier::external_body]
pub(crate) fn import_signature(b: &mut FunctionBuilder<'_>, s: Signature) -> (r: usize)
    requires
        signature_view(s).returns.len() == 1,
        signature_view(s).convention == Convention::SystemV,
        takes(
            builder_code(*old(b)),
            Action::ImportSignature(signature_view(s).params, signature_view(s).returns[0]),
        ),
    ensures
        called(
            builder_code(*old(b)),
            Action::ImportSignature(signature_view(s).params, signature_view(s).returns[0]),
            r,
            builder_code(*final(b)),
        ),
{
    b.import_signature(s).index()
}

/// `InstBuilder::bconst`: a truth value.
#[verifier::external_body]
pub(crate) fn bconst(b: &mut FunctionBuilder<'_>, t: ClifType, c: bool) -> (r: usize)
    requires
        takes(builder_code(*old(b)), Action::Bconst(ir_of(t), c)),
    ensures
        called(builder_code(*old(b)), Action::Bconst(ir_of(t), c), r, builder_code(*final(b))),
{
    b.ins().bconst(t, c).index()
}

/// `InstBuilder::iconst`: an integer.
#[verifier::external_body]
pub(crate) fn iconst(b: &mut FunctionBuilder<'_>, t: ClifType, c: i64) -> (r: usize)
    requires
        takes(builder_code(*old(b)), Action::Iconst(ir_of(t), c)),
    ensures
        called(builder_code(*old(b)), Action::Iconst(ir_of(t), c), r, builder_code(*final(b))),
{
    b.ins().iconst(t, c).index()
}

/// `InstBuilder::f32const`: a single-precision number, by its bits.
#[verifier::external_body]
pub(crate) fn f32const(b: &mut FunctionBuilder<'_>, c: u32) -> (r: usize)
    requires
        takes(builder_code(*old(b)), Action::F32const(c)),
    ensures
        called(builder_code(*old(b)), Action::F32const(c), r, builder_code(*final(b))),
{
    b.ins().f32const(Ieee32::with_bits(c)).index()
}

/// `InstBuilder::f64const`: a double-precision number, by its bits.
#[verifier::external_body]
pub(crate) fn f64const(b: &mut FunctionBuilder<'_>, c: u64) -> (r: usize)
    requires
        takes(builder_code(*old(b)), Action::F64const(c)),
    ensures
        called(builder_code(*old(b)), Action::F64const(c), r, builder_code(*final(b))),
{
    b.ins().f64const(Ieee64::with_bits(c)).index()
}

/// `InstBuilder::func_addr`: the address of a function.
#[verifier::external_body]
pub(crate) fn func_addr(b: &mut FunctionBuilder<'_>, t: ClifType, f: usize) -> (r: usize)
    requires
        takes(builder_code(*old(b)), Action::FuncAddr(ir_of(t), f as int)),
    ensures
        called(
            builder_code(*old(b)),
            Action::FuncAddr(ir_of(t), f as int),
            r,
            builder_code(*final(b)),
        ),
{
    b.ins().func_addr(t, FuncRef::new(f)).index()
}

/// `InstBuilder::global_value`: the address of a data object.
#[verifier::external_body]
pub(crate) fn global_value(b: &mut FunctionBuilder<'_>, t: ClifType, d: usize) -> (r: usize)
    requires
        takes(builder_code(*old(b)), Action::GlobalValue(ir_of(t), d as int)),
    ensures
        called(
            builder_code(*old(b)),
            Action::GlobalValue(ir_of(t), d as int),
            r,
            builder_code(*final(b)),
        ),
{
    b.ins().global_value(t, GlobalValue::new(d)).index()
}

/// `InstBuilder::stack_store`: stores a value in a slot, at an offset.
#[verifier::external_body]
pub(crate) fn stack_store(b: &mut FunctionBuilder<'_>, x: usize, s: usize, o: i32)
    requires
        takes(builder_code(*old(b)), Action::StackStore(x as int, s as int, o)),
    ensures
        called(
            builder_code(*old(b)),
            Action::StackStore(x as int, s as int, o),
            0,
            builder_code(*final(b)),
        ),
{
    b.ins().stack_store(Value::new(x), StackSlot::new(s), o);
}

/// `InstBuilder::stack_addr`: the address of a slot, at an offset.
#[verifier::external_body]
pub(crate) fn stack_addr(b: &mut FunctionBuilder<'_>, t: ClifType, s: usize, o: i32) -> (r: usize)
    requires
        takes(builder_code(*old(b)), Action::StackAddr(ir_of(t), s as int, o)),
    ensures
        called(
            builder_code(*old(b)),
            Action::StackAddr(ir_of(t), s as int, o),
            r,
            builder_code(*final(b)),
        ),
{
    b.ins().stack_addr(t, StackSlot::new(s), o).index()
}

/// `InstBuilder::iadd`: adds integers.
#[verifier::external_body]
pub(crate) fn iadd(b: &mut FunctionBuilder<'_>, x: usize, y: usize) -> (r: usize)
    requires
        takes(builder_code(*old(b)), Action::Binary(BinaryOp::Iadd, x as int, y as int)),
    ensures
        called(
            builder_code(*old(b)),
            Action::Binary(BinaryOp::Iadd, x as int, y as int),
            r,
            builder_code(*final(b)),
        ),
{
    b.ins().iadd(Value::new(x), Value::new(y)).index()
}

/// `InstBuilder::isub`: subtracts integers.
#[verifier::external_body]
pub(crate) fn isub(b: &mut FunctionBuilder<'_>, x: usize, y: usize) -> (r: usize)
    requires
        takes(builder_code(*old(b)), Action::Binary(BinaryOp::Isub, x as int, y as int)),
    ensures
        called(
            builder_code(*old(b)),
            Action::Binary(BinaryOp::Isub, x as int, y as int),
            r,
            builder_code(*final(b)),
        ),
{
    b.ins().isub(Value::new(x), Value::new(y)).index()
}

/// `InstBuilder::imul`: multiplies integers.
#[verifier::external_body]
pub(crate) fn imul(b: &mut FunctionBuilder<'_>, x: usize, y: usize) -> (r: usize)
    requires
        takes(builder_code(*old(b)), Action::Binary(BinaryOp::Imul, x as int, y as int)),
    ensures
        called(
            builder_code(*old(b)),
            Action::Binary(BinaryOp::Imul, x as int, y as int),
            r,
            builder_code(*final(b)),
        ),
{
    b.ins().imul(Value::new(x), Value::new(y)).index()
}

/// `InstBuilder::udiv`: divides unsigned integers.
#[verifier::external_body]
pub(crate) fn udiv(b: &mut FunctionBuilder<'_>, x: usize, y: usize) -> (r: usize)
    requires
        takes(builder_code(*old(b)), Action::Binary(BinaryOp::Udiv, x as int, y as int)),
    ensures
        called(
            builder_code(*old(b)),
            Action::Binary(BinaryOp::Udiv, x as int, y as int),
            r,
            builder_code(*final(b)),
        ),
{
    b.ins().udiv(Value::new(x), Value::new(y)).index()
}

/// `InstBuilder::sdiv`: divides signed integers.
#[verifier::external_body]
pub(crate) fn sdiv(b: &mut FunctionBuilder<'_>, x: usize, y: usize) -> (r: usize)
    requires
        takes(builder_code(*old(b)), Action::Binary(BinaryOp::Sdiv, x as int, y as int)),
    ensures
        called(
            builder_code(*old(b)),
            Action::Binary(BinaryOp::Sdiv, x as int, y as int),
            r,
            builder_code(*final(b)),
        ),
{
    b.ins().sdiv(Value::new(x), Value::new(y)).index()
}

/// `InstBuilder::urem`: the remainder of unsigned integers.
#[verifier::external_body]
pub(crate) fn urem(b: &mut FunctionBuilder<'_>, x: usize, y: usize) -> (r: usize)
    requires
        takes(builder_code(*old(b)), Action::Binary(BinaryOp::Urem, x as int, y as int)),
    ensures
        called(
            builder_code(*old(b)),
            Action::Binary(BinaryOp::Urem, x as int, y as int),
            r,
            builder_code(*final(b)),
        ),
{
    b.ins().urem(Value::new(x), Value::new(y)).index()
}

/// `InstBuilder::srem`: the remainder of signed integers.
#[verifier::external_body]
pub(crate) fn srem(b: &mut FunctionBuilder<'_>, x: usize, y: usize) -> (r: usize)
    requires
        takes(builder_code(*old(b)), Action::Binary(BinaryOp::Srem, x as int, y as int)),
    ensures
        called(
            builder_code(*old(b)),
            Action::Binary(BinaryOp::Srem, x as int, y as int),
            r,
            builder_code(*final(b)),
        ),
{
    b.ins().srem(Value::new(x), Value::new(y)).index()
}

/// `InstBuilder::fadd`: adds numbers.
#[verifier::external_body]
pub(crate) fn fadd(b: &mut FunctionBuilder<'_>, x: usize, y: usize) -> (r: usize)
    requires
        takes(builder_code(*old(b)), Action::Binary(BinaryOp::Fadd, x as int, y as int)),
    ensures
        called(
            builder_code(*old(b)),
            Action::Binary(BinaryOp::Fadd, x as int, y as int),
            r,
            builder_code(*final(b)),
        ),
{
    b.ins().fadd(Value::new(x), Value::new(y)).index()
}

/// `InstBuilder::fsub`: subtracts numbers.
#[verifier::external_body]
pub(crate) fn fsub(b: &mut FunctionBuilder<'_>, x: usize, y: usize) -> (r: usize)
    requires
        takes(builder_code(*old(b)), Action::Binary(BinaryOp::Fsub, x as int, y as int)),
    ensures
        called(
            builder_code(*old(b)),
            Action::Binary(BinaryOp::Fsub, x as int, y as int),
            r,
            builder_code(*final(b)),
        ),
{
    b.ins().fsub(Value::new(x), Value::new(y)).index()
}

/// `InstBuilder::fmul`: multiplies numbers.
#[verifier::external_body]
pub(crate) fn fmul(b: &mut FunctionBuilder<'_>, x: usize, y: usize) -> (r: usize)
    requires
        takes(builder_code(*old(b)), Action::Binary(BinaryOp::Fmul, x as int, y as int)),
    ensures
        called(
            builder_code(*old(b)),
            Action::Binary(BinaryOp::Fmul, x as int, y as int),
            r,
            builder_code(*final(b)),
        ),
{
    b.ins().fmul(Value::new(x), Value::new(y)).index()
}

/// `InstBuilder::fdiv`: divides numbers.
#[verifier::external_body]
pub(crate) fn fdiv(b: &mut FunctionBuilder<'_>, x: usize, y: usize) -> (r: usize)
    requires
        takes(builder_code(*old(b)), Action::Binary(BinaryOp::Fdiv, x as int, y as int)),
    ensures
        called(
            builder_code(*old(b)),
            Action::Binary(BinaryOp::Fdiv, x as int, y as int),
            r,
            builder_code(*final(b)),
        ),
{
    b.ins().fdiv(Value::new(x), Value::new(y)).index()
}

/// `InstBuilder::band`: the bits that both have.
#[verifier::external_body]
pub(crate) fn band(b: &mut FunctionBuilder<'_>, x: usize, y: usize) -> (r: usize)
    requires
        takes(builder_code(*old(b)), Action::Binary(BinaryOp::Band, x as int, y as int)),
    ensures
        called(
            builder_code(*old(b)),
            Action::Binary(BinaryOp::Band, x as int, y as int),
            r,
            builder_code(*final(b)),
        ),
{
    b.ins().band(Value::new(x), Value::new(y)).index()
}

/// `InstBuilder::bor`: the bits that either has.
#[verifier::external_body]
pub(crate) fn bor(b: &mut FunctionBuilder<'_>, x: usize, y: usize) -> (r: usize)
    requires
        takes(builder_code(*old(b)), Action::Binary(BinaryOp::Bor, x as int, y as int)),
    ensures
        called(
            builder_code(*old(b)),
            Action::Binary(BinaryOp::Bor, x as int, y as int),
            r,
            builder_code(*final(b)),
        ),
{
    b.ins().bor(Value::new(x), Value::new(y)).index()
}

/// `InstBuilder::bxor`: the bits that one of them has.
#[verifier::external_body]
pub(crate) fn bxor(b: &mut FunctionBuilder<'_>, x: usize, y: usize) -> (r: usize)
    requires
        takes(builder_code(*old(b)), Action::Binary(BinaryOp::Bxor, x as int, y as int)),
    ensures
        called(
            builder_code(*old(b)),
            Action::Binary(BinaryOp::Bxor, x as int, y as int),
            r,
            builder_code(*final(b)),
        ),
{
    b.ins().bxor(Value::new(x), Value::new(y)).index()
}

/// `InstBuilder::ishl`: shifts bits to the left.
#[verifier::external_body]
pub(crate) fn ishl(b: &mut FunctionBuilder<'_>, x: usize, y: usize) -> (r: usize)
    requires
        takes(builder_code(*old(b)), Action::Binary(BinaryOp::Ishl, x as int, y as int)),
    ensures
        called(
            builder_code(*old(b)),
            Action::Binary(BinaryOp::Ishl, x as int, y as int),
            r,
            builder_code(*final(b)),
        ),
{
    b.ins().ishl(Value::new(x), Value::new(y)).index()
}

/// `InstBuilder::ushr`: shifts bits to the right, in zeros.
#[verifier::external_body]
pub(crate) fn ushr(b: &mut FunctionBuilder<'_>, x: usize, y: usize) -> (r: usize)
    requires
        takes(builder_code(*old(b)), Action::Binary(BinaryOp::Ushr, x as int, y as int)),
    ensures
        called(
            builder_code(*old(b)),
            Action::Binary(BinaryOp::Ushr, x as int, y as int),
            r,
            builder_code(*final(b)),
        ),
{
    b.ins().ushr(Value::new(x), Value::new(y)).index()
}

/// `InstBuilder::imul_imm`: multiplies an integer by a constant.
#[verifier::external_body]
pub(crate) fn imul_imm(b: &mut FunctionBuilder<'_>, x: usize, c: i64) -> (r: usize)
    requires
        takes(builder_code(*old(b)), Action::ImulImm(x as int, c)),
    ensures
        called(builder_code(*old(b)), Action::ImulImm(x as int, c), r, builder_code(*final(b))),
{
    b.ins().imul_imm(Value::new(x), c).index()
}

/// `InstBuilder::icmp`: compares two integers; the result is a truth value.
#[verifier::external_body]
pub(crate) fn compare_ints(
    b: &mut FunctionBuilder<'_>,
    c: IntCond,
    x: usize,
    y: usize,
) -> (r: usize)
    requires
        takes(builder_code(*old(b)), int_comparison(c, x, y)),
    ensures
        called(builder_code(*old(b)), int_comparison(c, x, y), r, builder_code(*final(b))),
{
    let c = match c {
        IntCond::SignedLessThan => IntCC::SignedLessThan,
        IntCond::UnsignedLessThan => IntCC::UnsignedLessThan,
        IntCond::UnsignedLessThanOrEqual => IntCC::UnsignedLessThanOrEqual,
    };
    b.ins().icmp(c, Value::new(x), Value::new(y)).index()
}

/// `InstBuilder::icmp_imm`: compares an integer with a constant; the result is a
/// truth value.
#[verifier::external_body]
pub(crate) fn compare_imm(b: &mut FunctionBuilder<'_>, c: IntCond, x: usize, k: i64) -> (r: usize)
    requires
        takes(builder_code(*old(b)), imm_comparison(c, x, k)),
    ensures
        called(builder_code(*old(b)), imm_comparison(c, x, k), r, builder_code(*final(b))),
{
    let c = match c {
        IntCond::SignedLessThan => IntCC::SignedLessThan,
        IntCond::UnsignedLessThan => IntCC::UnsignedLessThan,
        IntCond::UnsignedLessThanOrEqual => IntCC::UnsignedLessThanOrEqual,
    };
    b.ins().icmp_imm(c, Value::new(x), k).index()
}

/// `InstBuilder::fcmp`, for "less than"; the result is a truth value.
#[verifier::external_body]
pub(crate) fn float_less_than(b: &mut FunctionBuilder<'_>, x: usize, y: usize) -> (r: usize)
    requires
        takes(builder_code(*old(b)), float_comparison(x, y)),
    ensures
        called(builder_code(*old(b)), float_comparison(x, y), r, builder_code(*final(b))),
{
    b.ins().fcmp(FloatCC::LessThan, Value::new(x), Value::new(y)).index()
}

/// `InstBuilder::trapz`: stops with a stack overflow if a value is zero.
#[verifier::external_body]
pub(crate) fn trapz_stack_overflow(b: &mut FunctionBuilder<'_>, x: usize)
    requires
        takes(builder_code(*old(b)), Action::TrapzStackOverflow(x as int)),
    ensures
        called(
            builder_code(*old(b)),
            Action::TrapzStackOverflow(x as int),
            0,
            builder_code(*final(b)),
        ),
{
    b.ins().trapz(Value::new(x), TrapCode::StackOverflow);
}

/// `InstBuilder::load`: loads a value from an address, at an offset.
#[verifier::external_body]
pub(crate) fn load(b: &mut FunctionBuilder<'_>, t: ClifType, p: usize, o: i32) -> (r: usize)
    requires
        takes(builder_code(*old(b)), Action::Load(ir_of(t), p as int, o)),
    ensures
        called(
            builder_code(*old(b)),
            Action::Load(ir_of(t), p as int, o),
            r,
            builder_code(*final(b)),
        ),
{
    b.ins().load(t, MemFlags::new(), Value::new(p), o).index()
}

/// `InstBuilder::store`: stores a value to an address, at an offset.
#[verifier::external_body]
pub(crate) fn store(b: &mut FunctionBuilder<'_>, x: usize, p: usize, o: i32)
    requires
        takes(builder_code(*old(b)), Action::Store(x as int, p as int, o)),
    ensures
        called(
            builder_code(*old(b)),
            Action::Store(x as int, p as int, o),
            0,
            builder_code(*final(b)),
        ),
{
    b.ins().store(MemFlags::new(), Value::new(x), Value::new(p), o);
}

/// `InstBuilder::brz`: goes to a block if a value is zero. The compiler cannot
/// take every loop of blocks that nothing leads into, nor every loop with several
/// ways in, so loops begin with a block that was jumped to from further up, and
/// have no other way in.
#[verifier::external_body]
pub(crate) fn brz(b: &mut FunctionBuilder<'_>, c: usize, block: usize)
    requires
        takes(builder_code(*old(b)), Action::Brz(c as int, block as int)),
    ensures
        called(
            builder_code(*old(b)),
            Action::Brz(c as int, block as int),
            0,
            builder_code(*final(b)),
        ),
{
    b.ins().brz(Value::new(c), Block::new(block), &[]);
}

/// `InstBuilder::jump`: goes to a block, with a value for its parameter if there
/// is one. The block it stands in is complete. What is
/// said of loops at `brz` holds here too.
#[verifier::external_body]
pub(crate) fn jump(b: &mut FunctionBuilder<'_>, block: usize, x: Option<usize>)
    requires
        takes(builder_code(*old(b)), Action::Jump(block as int, int_option(x))),
    ensures
        called(
            builder_code(*old(b)),
            Action::Jump(block as int, int_option(x)),
            0,
            builder_code(*final(b)),
        ),
{
    let args: Vec<Value> = x.into_iter().map(Value::new).collect();
    b.ins().jump(Block::new(block), &args);
}

/// `InstBuilder::return_`: returns a value. The block it stands in is complete.
#[verifier::external_body]
pub(crate) fn return_value(b: &mut FunctionBuilder<'_>, x: usize)
    requires
        takes(builder_code(*old(b)), Action::Return(x as int)),
    ensures
        called(builder_code(*old(b)), Action::Return(x as int), 0, builder_code(*final(b))),
{
    b.ins().return_(&[Value::new(x)]);
}

/// `InstBuilder::call`: calls a function that was made known; what it gives is the
/// call, not its result.
#[verifier::external_body]
pub(crate) fn call(b: &mut FunctionBuilder<'_>, f: usize, xs: &Vec<usize>) -> (r: usize)
    requires
        takes(builder_code(*old(b)), Action::Call(f as int, ints(xs@))),
    ensures
        called(
            builder_code(*old(b)),
            Action::Call(f as int, ints(xs@)),
            r,
            builder_code(*final(b)),
        ),
{
    let args: Vec<Value> = xs.iter().map(|x| Value::new(*x)).collect();
    b.ins().call(FuncRef::new(f), &args).index()
}

/// `InstBuilder::call_indirect`: calls the function at an address; what it gives is
/// the call, not its result.
#[verifier::external_body]
pub(crate) fn call_indirect(
    b: &mut FunctionBuilder<'_>,
    s: usize,
    f: usize,
    xs: &Vec<usize>,
) -> (r: usize)
    requires
        takes(builder_code(*old(b)), Action::CallIndirect(s as int, f as int, ints(xs@))),
    ensures
        called(
            builder_code(*old(b)),
            Action::CallIndirect(s as int, f as int, ints(xs@)),
            r,
            builder_code(*final(b)),
        ),
{
    let args: Vec<Value> = xs.iter().map(|x| Value::new(*x)).collect();
    b.ins().call_indirect(SigRef::new(s), Value::new(f), &args).index()
}

/// `FunctionBuilder::inst_results`: the first result of a call, which is the same
/// each time.
#[verifier::external_body]
pub(crate) fn inst_result(b: &mut FunctionBuilder<'_>, i: usize) -> (r: usize)
    requires
        takes(builder_code(*old(b)), Action::InstResult(i as int)),
    ensures
        called(builder_code(*old(b)), Action::InstResult(i as int), r, builder_code(*final(b))),
{
    b.inst_results(Inst::new(i))[0].index()
}

/// `FunctionBuilder::seal_all_blocks`: notes that all jumps are in place. If a
/// variable was used in a block that did not know it, then blocks may get
/// parameters from it, for variables that are used in them or further on, and it
/// asserts that they are not too many.
#[verifier::external_body]
pub(crate) fn seal_all_blocks(b: &mut FunctionBuilder<'_>)
    requires
        takes(builder_code(*old(b)), Action::SealAllBlocks),
    ensures
        called(builder_code(*old(b)), Action::SealAllBlocks, 0, builder_code(*final(b))),
{
    b.seal_all_blocks();
}

/// `FunctionBuilder::finalize`: notes that the function is complete. It asserts
/// that every block is, and that a jump follows every conditional branch.
#[verifier::external_body]
pub(crate) fn finalize(b: &mut FunctionBuilder<'_>)
    requires
        takes(builder_code(*old(b)), Action::Finalize),
    ensures
        called(builder_code(*old(b)), Action::Finalize, 0, builder_code(*final(b))),
{
    b.finalize();
}

} // verus!
