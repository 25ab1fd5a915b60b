//! The typed expressions that the generator takes.

use vstd::prelude::*;

verus! {

/// A type of the source language.
pub enum Type<'a> {
    /// An integer: whether it is signed, and its width in bits.
    Int(bool, u8),
    /// A single-precision number.
    F32,
    /// A double-precision number.
    F64,
    /// A tuple of types.
    Tuple(Vec<Type<'a>>),
    /// A pointer: whether it is mutable, and what it points to.
    Pointer(bool, Box<Type<'a>>),
    /// A slice: whether it is mutable, and what its elements are.
    Slice(bool, Box<Type<'a>>),
    /// A structure: its name, and the types it is applied to.
    Struct(&'a str, Vec<Type<'a>>),
    /// A function: its parameters, and what it returns.
    Function(Vec<Type<'a>>, Box<Type<'a>>),
    /// A type parameter.
    Generic(&'a str),
}

/// What the checker noted about an expression.
pub struct Meta<'a> {
    /// The type of the expression.
    pub type_: Type<'a>,
}

/// A number literal, as the bits of its nearest value in both precisions.
#[derive(Clone, Copy)]
pub struct FloatBits {
    /// The bits of the single-precision value.
    pub single: u32,
    /// The bits of the double-precision value.
    pub double: u64,
}

/// A typed expression.
#[allow(inconsistent_fields)]
pub enum SExpr<'a> {
    /// An integer literal.
    Int { meta: Meta<'a>, value: u64 },
    /// A number literal.
    Float { meta: Meta<'a>, value: FloatBits },
    /// A string literal.
    Str { meta: Meta<'a>, value: &'a str },
    /// A name.
    Symbol { meta: Meta<'a>, value: &'a str },
    /// Expressions that are evaluated in turn; the last one gives the value.
    Sequence { meta: Meta<'a>, values: Vec<SExpr<'a>> },
    /// Conditions with their bodies, and what to do if none of them holds.
    Cond {
        meta: Meta<'a>,
        values: Vec<(SExpr<'a>, SExpr<'a>)>,
        elsy: Option<Box<SExpr<'a>>>,
    },
    /// An endless loop.
    Loop { meta: Meta<'a>, value: Box<SExpr<'a>> },
    /// The end of the innermost loop.
    Break { meta: Meta<'a>, value: Option<Box<SExpr<'a>>> },
    /// The empty value.
    Nil { meta: Meta<'a> },
    /// An expression with a type written beside it.
    Type { meta: Meta<'a>, value: Box<SExpr<'a>> },
    /// A function definition.
    FuncDef {
        meta: Meta<'a>,
        name: &'a str,
        ret_type: Type<'a>,
        args: Vec<(&'a str, Type<'a>)>,
        expr: Box<SExpr<'a>>,
    },
    /// A call.
    FuncCall { meta: Meta<'a>, func: Box<SExpr<'a>>, values: Vec<SExpr<'a>> },
    /// A structure with its fields set.
    StructSet { meta: Meta<'a>, name: &'a str, values: Vec<(&'a str, SExpr<'a>)> },
    /// A new variable.
    Declare { meta: Meta<'a>, mutable: bool, variable: &'a str, value: Box<SExpr<'a>> },
    /// A new value for something that was declared before.
    Assign { meta: Meta<'a>, lvalue: LValue<'a>, value: Box<SExpr<'a>> },
    /// A part of a value.
    Attribute { meta: Meta<'a>, top: Box<SExpr<'a>>, attrs: Vec<&'a str> },
}

/// A place that a value can be assigned to.
pub enum LValue<'a> {
    /// A variable.
    Symbol(&'a str),
    /// A part of a place.
    Attribute(Box<LValue<'a>>, Vec<&'a str>),
    /// What a pointer points to.
    Deref(Box<LValue<'a>>),
    /// An element of a slice: its type, the slice and the index.
    Get(Type<'a>, Box<LValue<'a>>, Box<SExpr<'a>>),
}

/// Whether a type parameter occurs in a type.
pub open spec fn generic(t: Type<'_>) -> bool
    decreases t,
{
    match t {
        Type::Generic(_) => true,
        Type::Tuple(v) | Type::Struct(_, v) => any_generic(v@),
        Type::Pointer(_, t) | Type::Slice(_, t) => generic(*t),
        Type::Function(a, r) => any_generic(a@) || generic(*r),
        _ => false,
    }
}

/// Whether a type parameter occurs in one of some types.
pub open spec fn any_generic(ts: Seq<Type<'_>>) -> bool
    decreases ts,
{
    ts.len() != 0 && (any_generic(ts.drop_last()) || generic(ts.last()))
}

impl<'a> Type<'a> {
    /// Whether a type parameter occurs in this type.
    pub fn has_generic(&self) -> (r: bool)
        ensures
            r == generic(*self),
        decreases self,
    {
        match self {
            Type::Generic(_) => true,
            Type::Tuple(v) => Self::any_has_generic(v),
            Type::Struct(_, v) => Self::any_has_generic(v),
            Type::Pointer(_, t) => t.has_generic(),
            Type::Slice(_, t) => t.has_generic(),
            Type::Function(a, r) => Self::any_has_generic(a) || r.has_generic(),
            _ => false,
        }
    }

    fn any_has_generic(ts: &Vec<Type<'a>>) -> (r: bool)
        ensures
            r == any_generic(ts@),
        decreases ts,
    {
        let mut found = false;
        let mut i: usize = 0;
        while i < ts.len()
            invariant
                i <= ts.len(),
                found == any_generic(ts@.take(i as int)),
            decreases ts.len() - i,
        {
            assert(ts@.take(i + 1).drop_last() =~= ts@.take(i as int));
            found = found || ts[i].has_generic();
            i += 1;
        }
        assert(ts@.take(i as int) =~= ts@);
        found
    }
}

/// The type that the checker gave to an expression.
pub open spec fn type_of<'a>(e: SExpr<'a>) -> Type<'a> {
    match e {
        SExpr::Int { meta, .. } => meta.type_,
        SExpr::Float { meta, .. } => meta.type_,
        SExpr::Str { meta, .. } => meta.type_,
        SExpr::Symbol { meta, .. } => meta.type_,
        SExpr::Sequence { meta, .. } => meta.type_,
        SExpr::Cond { meta, .. } => meta.type_,
        SExpr::Loop { meta, .. } => meta.type_,
        SExpr::Break { meta, .. } => meta.type_,
        SExpr::Nil { meta } => meta.type_,
        SExpr::Type { meta, .. } => meta.type_,
        SExpr::FuncDef { meta, .. } => meta.type_,
        SExpr::FuncCall { meta, .. } => meta.type_,
        SExpr::StructSet { meta, .. } => meta.type_,
        SExpr::Declare { meta, .. } => meta.type_,
        SExpr::Assign { meta, .. } => meta.type_,
        SExpr::Attribute { meta, .. } => meta.type_,
    }
}

impl<'a> SExpr<'a> {
    /// What the checker noted about this expression.
    pub fn meta(&self) -> (r: &Meta<'a>)
        ensures
            r.type_ == type_of(*self),
    {
        match self {
            SExpr::Int { meta, .. } => meta,
            SExpr::Float { meta, .. } => meta,
            SExpr::Str { meta, .. } => meta,
            SExpr::Symbol { meta, .. } => meta,
            SExpr::Sequence { meta, .. } => meta,
            SExpr::Cond { meta, .. } => meta,
            SExpr::Loop { meta, .. } => meta,
            SExpr::Break { meta, .. } => meta,
            SExpr::Nil { meta } => meta,
            SExpr::Type { meta, .. } => meta,
            SExpr::FuncDef { meta, .. } => meta,
            SExpr::FuncCall { meta, .. } => meta,
            SExpr::StructSet { meta, .. } => meta,
            SExpr::Declare { meta, .. } => meta,
            SExpr::Assign { meta, .. } => meta,
            SExpr::Attribute { meta, .. } => meta,
        }
    }
}

} // verus!
