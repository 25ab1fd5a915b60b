//! Machine-level types, and how the types of the language are laid out in them.

use vstd::prelude::*;

use crate::ast::Type;
use crate::generator::Generator;

verus! {

/// The type of a value in generated code.
#[derive(Clone, Copy, Debug, PartialEq, Eq, Structural)]
pub enum IrType {
    B1,
    I8,
    I16,
    I32,
    I64,
    F32,
    F64,
}

/// The machine-level type that holds a value of a type, if there is one.
pub open spec fn ir_type(t: Type<'_>) -> Option<IrType> {
    match t {
        Type::Int(_, 1) => Some(IrType::B1),
        Type::Int(_, 8) => Some(IrType::I8),
        Type::Int(_, 16) => Some(IrType::I16),
        Type::Int(_, 32) => Some(IrType::I32),
        Type::Int(_, 64) => Some(IrType::I64),
        Type::F32 => Some(IrType::F32),
        Type::F64 => Some(IrType::F64),
        Type::Tuple(v) => if v@.len() == 0 {
            Some(IrType::B1)
        } else {
            None
        },
        Type::Pointer(_, _) | Type::Slice(_, _) | Type::Function(_, _) => Some(IrType::I64),
        _ => None,
    }
}

/// The number of bytes that an element of a type takes in memory, if it has a layout.
pub open spec fn byte_size(t: Type<'_>) -> Option<u32> {
    match t {
        Type::Int(_, 1) => Some(1),
        Type::Int(_, 8) => Some(1),
        Type::Int(_, 16) => Some(2),
        Type::Int(_, 32) => Some(4),
        Type::Int(_, 64) => Some(8),
        Type::F32 => Some(4),
        Type::F64 => Some(8),
        Type::Tuple(v) => if v@.len() == 0 {
            Some(0)
        } else {
            None
        },
        Type::Pointer(_, _) | Type::Slice(_, _) => Some(8),
        _ => None,
    }
}

/// Whether every one of some types has a machine-level type.
pub open spec fn all_ir(ts: Seq<Type<'_>>) -> bool {
    forall|i: int| 0 <= i < ts.len() ==> ir_type(#[trigger] ts[i]) is Some
}

/// The machine-level types of some types.
pub open spec fn ir_types(ts: Seq<Type<'_>>) -> Seq<IrType> {
    Seq::new(ts.len(), |i: int| ir_type(ts[i])->0)
}

impl Generator {
    /// The machine-level type that holds a value of a type.
    pub fn convert_type_to_type(t: &Type<'_>) -> (r: IrType)
        requires
            ir_type(*t) is Some,
        ensures
            ir_type(*t) == Some(r),
    {
        match t {
            Type::Int(_, width) => if *width == 1 {
                IrType::B1
            } else if *width == 8 {
                IrType::I8
            } else if *width == 16 {
                IrType::I16
            } else if *width == 32 {
                IrType::I32
            } else {
                IrType::I64
            },
            Type::F32 => IrType::F32,
            Type::F64 => IrType::F64,
            Type::Tuple(_) => IrType::B1,
            _ => IrType::I64,
        }
    }

    /// The number of bytes that an element of a type takes in memory.
    pub fn size_of(t: &Type<'_>) -> (r: u32)
        requires
            byte_size(*t) is Some,
        ensures
            byte_size(*t) == Some(r),
    {
        match t {
            Type::Int(_, width) => if *width == 1 || *width == 8 {
                1
            } else if *width == 16 {
                2
            } else if *width == 32 {
                4
            } else {
                8
            },
            Type::F32 => 4,
            Type::F64 => 8,
            Type::Tuple(_) => 0,
            _ => 8,
        }
    }
}

/// The machine-level types of some types, in order.
pub fn convert_types(ts: &Vec<Type<'_>>) -> (r: Vec<IrType>)
    requires
        all_ir(ts@),
    ensures
        r@ == ir_types(ts@),
{
    let mut r: Vec<IrType> = Vec::new();
    let mut i: usize = 0;
    while i < ts.len()
        invariant
            i <= ts.len(),
            all_ir(ts@),
            r@.len() == i,
            forall|j: int| 0 <= j < i ==> r@[j] == ir_types(ts@)[j],
        decreases ts.len() - i,
    {
        r.push(Generator::convert_type_to_type(&ts[i]));
        i += 1;
    }
    assert(r@ =~= ir_types(ts@));
    r
}

} // verus!
