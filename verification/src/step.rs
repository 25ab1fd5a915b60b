//! The steps that a function is built from.
//!
//! A step is one call on the function builder or on the module around it. A
//! function is planned as a list of steps; where a step needs what an earlier
//! one gave (a value, a block, a slot), it names the earlier one by its place
//! in the list.

use vstd::prelude::*;

use crate::ir::IrType;

verus! {

/// An instruction with two operands, of the type of the first one.
#[derive(Clone, Copy, Debug, PartialEq, Eq, Structural)]
pub enum BinaryOp {
    Iadd,
    Isub,
    Imul,
    Udiv,
    Sdiv,
    Urem,
    Srem,
    Fadd,
    Fsub,
    Fmul,
    Fdiv,
    Band,
    Bor,
    Bxor,
    Ishl,
    Ushr,
}

/// How two integers are compared.
#[derive(Clone, Copy, Debug, PartialEq, Eq, Structural)]
pub enum IntCond {
    SignedLessThan,
    UnsignedLessThan,
    UnsignedLessThanOrEqual,
}

/// One step, as it is planned.
#[derive(Debug, PartialEq, Eq)]
pub enum Step {
    /// Start a function with these parameters and this result.
    Begin(Vec<IrType>, IrType),
    /// Make a block.
    CreateBlock,
    /// Go on at the end of a block.
    SwitchToBlock(usize),
    /// Give a block the parameters of the function.
    AppendFunctionParams(usize),
    /// Give a block one more parameter.
    AppendBlockParam(usize, IrType),
    /// Take a parameter of a block, by its position.
    BlockParam(usize, usize),
    /// Declare a variable, by its number.
    DeclareVar(usize, IrType),
    /// Give a variable a value.
    DefVar(usize, usize),
    /// Take the value of a variable.
    UseVar(usize),
    /// Reserve bytes on the stack.
    CreateStackSlot(u32),
    /// Make a signature known to the function.
    ImportSignature(Vec<IrType>, IrType),
    /// Make a declared function known to the function, with what it returns.
    ImportFunction(usize, IrType),
    /// Make a declared data object known to the function.
    ImportData(usize),
    /// A truth value.
    Bconst(IrType, bool),
    /// An integer.
    Iconst(IrType, i64),
    /// A single-precision number, by its bits.
    F32const(u32),
    /// A double-precision number, by its bits.
    F64const(u64),
    /// The address of a function.
    FuncAddr(IrType, usize),
    /// The address of a data object.
    GlobalValue(IrType, usize),
    /// Store a value in a stack slot, at an offset.
    StackStore(usize, usize, i32),
    /// The address of a stack slot, at an offset.
    StackAddr(IrType, usize, i32),
    /// An instruction with two operands.
    Binary(BinaryOp, usize, usize),
    /// Multiply an integer by a constant.
    ImulImm(usize, i64),
    /// Compare two integers.
    CompareInt(IntCond, usize, usize),
    /// Compare an integer with a constant.
    CompareIntImm(IntCond, usize, i64),
    /// Whether one number is less than another.
    FloatLessThan(usize, usize),
    /// Stop with a stack overflow if a value is zero.
    TrapzStackOverflow(usize),
    /// Load a value from an address, at an offset.
    Load(IrType, usize, i32),
    /// Store a value to an address, at an offset.
    Store(usize, usize, i32),
    /// Go to a block if a value is zero.
    Brz(usize, usize),
    /// Go to a block, with a value for its parameter.
    Jump(usize, Option<usize>),
    /// Return a value.
    Return(usize),
    /// Call a function that was made known.
    Call(usize, Vec<usize>),
    /// Call the function at an address, by a signature that was made known.
    CallIndirect(usize, usize, Vec<usize>),
    /// Take the result of a call.
    InstResult(usize),
    /// Note that all jumps of the function are in place.
    SealAllBlocks,
    /// Note that the function is complete.
    Finalize,
    /// Declare a function that is defined elsewhere.
    DeclareFunction(String, Vec<IrType>, IrType),
    /// Declare a data object that is private to the program.
    DeclareData(String),
    /// Give a data object its contents.
    DefineData(usize, Vec<u8>),
}

/// How arguments and results are passed.
#[derive(Clone, Copy, Debug, PartialEq, Eq, Structural)]
pub enum Convention {
    SystemV,
    AppleAarch64,
    WindowsFastcall,
}

/// What a signature holds.
pub struct SigView {
    pub params: Seq<IrType>,
    pub returns: Seq<IrType>,
    pub convention: Convention,
}

/// One step, as contracts speak of it.
pub enum Action {
    Begin(Seq<IrType>, IrType),
    CreateBlock,
    SwitchToBlock(int),
    AppendFunctionParams(int),
    AppendBlockParam(int, IrType),
    BlockParam(int, int),
    DeclareVar(int, IrType),
    DefVar(int, int),
    UseVar(int),
    CreateStackSlot(u32),
    ImportSignature(Seq<IrType>, IrType),
    ImportFunction(int, IrType),
    ImportData(int),
    Bconst(IrType, bool),
    Iconst(IrType, i64),
    F32const(u32),
    F64const(u64),
    FuncAddr(IrType, int),
    GlobalValue(IrType, int),
    StackStore(int, int, i32),
    StackAddr(IrType, int, i32),
    Binary(BinaryOp, int, int),
    ImulImm(int, i64),
    CompareInt(IntCond, int, int),
    CompareIntImm(IntCond, int, i64),
    FloatLessThan(int, int),
    TrapzStackOverflow(int),
    Load(IrType, int, i32),
    Store(int, int, i32),
    Brz(int, int),
    Jump(int, Option<int>),
    Return(int),
    Call(int, Seq<int>),
    CallIndirect(int, int, Seq<int>),
    InstResult(int),
    SealAllBlocks,
    Finalize,
    DeclareFunction(Seq<char>, Seq<IrType>, IrType),
    DeclareData(Seq<char>),
    DefineData(int, Seq<u8>),
    /// What `ImportFunction` comes to: the function's number in the module, its
    /// signature, and whether it is known to be defined in the program.
    LinkFunction(int, SigView, bool),
    /// What `ImportData` comes to: the data object's number in the module, and
    /// whether it is known to be defined in the program.
    LinkData(int, bool),
}

/// Some places, as numbers.
pub open spec fn ints(s: Seq<usize>) -> Seq<int> {
    Seq::new(s.len(), |i: int| s[i] as int)
}

/// A place that may be missing, as a number.
pub open spec fn int_option(o: Option<usize>) -> Option<int> {
    match o {
        Some(i) => Some(i as int),
        None => None,
    }
}

impl View for Step {
    type V = Action;

    open spec fn view(&self) -> Action {
        match *self {
            Step::Begin(p, r) => Action::Begin(p@, r),
            Step::CreateBlock => Action::CreateBlock,
            Step::SwitchToBlock(b) => Action::SwitchToBlock(b as int),
            Step::AppendFunctionParams(b) => Action::AppendFunctionParams(b as int),
            Step::AppendBlockParam(b, t) => Action::AppendBlockParam(b as int, t),
            Step::BlockParam(b, i) => Action::BlockParam(b as int, i as int),
            Step::DeclareVar(v, t) => Action::DeclareVar(v as int, t),
            Step::DefVar(v, x) => Action::DefVar(v as int, x as int),
            Step::UseVar(v) => Action::UseVar(v as int),
            Step::CreateStackSlot(n) => Action::CreateStackSlot(n),
            Step::ImportSignature(p, r) => Action::ImportSignature(p@, r),
            Step::ImportFunction(f, r) => Action::ImportFunction(f as int, r),
            Step::ImportData(d) => Action::ImportData(d as int),
            Step::Bconst(t, c) => Action::Bconst(t, c),
            Step::Iconst(t, c) => Action::Iconst(t, c),
            Step::F32const(c) => Action::F32const(c),
            Step::F64const(c) => Action::F64const(c),
            Step::FuncAddr(t, f) => Action::FuncAddr(t, f as int),
            Step::GlobalValue(t, d) => Action::GlobalValue(t, d as int),
            Step::StackStore(x, s, o) => Action::StackStore(x as int, s as int, o),
            Step::StackAddr(t, s, o) => Action::StackAddr(t, s as int, o),
            Step::Binary(op, x, y) => Action::Binary(op, x as int, y as int),
            Step::ImulImm(x, c) => Action::ImulImm(x as int, c),
            Step::CompareInt(cc, x, y) => Action::CompareInt(cc, x as int, y as int),
            Step::CompareIntImm(cc, x, c) => Action::CompareIntImm(cc, x as int, c),
            Step::FloatLessThan(x, y) => Action::FloatLessThan(x as int, y as int),
            Step::TrapzStackOverflow(x) => Action::TrapzStackOverflow(x as int),
            Step::Load(t, a, o) => Action::Load(t, a as int, o),
            Step::Store(x, a, o) => Action::Store(x as int, a as int, o),
            Step::Brz(c, b) => Action::Brz(c as int, b as int),
            Step::Jump(b, x) => Action::Jump(b as int, int_option(x)),
            Step::Return(x) => Action::Return(x as int),
            Step::Call(f, xs) => Action::Call(f as int, ints(xs@)),
            Step::CallIndirect(s, x, xs) => Action::CallIndirect(s as int, x as int, ints(xs@)),
            Step::InstResult(i) => Action::InstResult(i as int),
            Step::SealAllBlocks => Action::SealAllBlocks,
            Step::Finalize => Action::Finalize,
            Step::DeclareFunction(n, p, r) => Action::DeclareFunction(n@, p@, r),
            Step::DeclareData(n) => Action::DeclareData(n@),
            Step::DefineData(d, b) => Action::DefineData(d as int, b@),
        }
    }
}

/// Some steps, as contracts speak of them.
pub open spec fn actions(steps: Seq<Step>) -> Seq<Action> {
    Seq::new(steps.len(), |i: int| steps[i]@)
}

} // verus!
