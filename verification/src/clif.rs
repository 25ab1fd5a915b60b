//! Cranelift's types, and what can be said of their values.

use vstd::prelude::*;

use cranelift::codegen;
use cranelift::codegen::ir::Function;
use cranelift::codegen::Context;
use cranelift::prelude::{
    types, AbiParam, FunctionBuilder, FunctionBuilderContext, Signature, Type as ClifType,
};

use crate::ir::IrType;
use crate::protocol::{replay, Code};
use crate::size::{body_size, fits};
use crate::step::{Action, Convention, SigView};

verus! {

/// A type of Cranelift's intermediate representation.
#[verifier::external_type_specification]
#[verifier::external_body]
pub struct ExType(ClifType);

/// A signature: what a function takes and returns, and how.
#[verifier::external_type_specification]
#[verifier::external_body]
pub struct ExSignature(Signature);

/// A function in Cranelift's intermediate representation.
#[verifier::external_type_specification]
#[verifier::external_body]
pub struct ExFunction(Function);

/// A function that is about to be compiled, with the compiler's buffers.
#[verifier::external_type_specification]
#[verifier::external_body]
pub struct ExContext(Context);

/// The buffers of a function builder.
#[verifier::external_type_specification]
#[verifier::external_body]
pub struct ExFunctionBuilderContext(FunctionBuilderContext);

/// A function that is being built.
#[verifier::external_type_specification]
#[verifier::external_body]
pub struct ExFunctionBuilder<'a>(FunctionBuilder<'a>);

/// Which type a type is.
pub uninterp spec fn ir_of(t: ClifType) -> IrType;

/// What a signature holds.
pub uninterp spec fn signature_view(s: Signature) -> SigView;

/// What a function holds.
pub uninterp spec fn function_code(f: Function) -> Code;

/// What the function of a context holds.
pub uninterp spec fn context_code(c: Context) -> Code;

/// What the function of a builder holds.
pub uninterp spec fn builder_code(b: FunctionBuilder<'_>) -> Code;

/// How a function reads in Cranelift's textual form.
pub uninterp spec fn function_text(c: Code) -> Seq<char>;

/// A function that holds nothing yet.
pub open spec fn blank(convention: Convention) -> Code {
    Code {
        signature: SigView { params: seq![], returns: seq![], convention },
        body: seq![],
    }
}

/// Whether a builder takes a call: its assertions hold, and the function is so
/// small that the number of nothing in it is too large.
#[verifier::opaque]
pub open spec fn takes(c: Code, a: Action) -> bool {
    &&& replay(c.body).accepts(a)
    &&& fits(body_size(c.body))
}

/// What a builder holds after a call that gave `r`.
#[verifier::opaque]
pub open spec fn called(before: Code, a: Action, r: usize, after: Code) -> bool {
    &&& replay(before.body).gives(a, r as int)
    &&& after == (Code { body: before.body.push((a, r as int)), ..before })
}

/// The types that `cranelift::prelude::types` names, each for the variant of
/// its own name.
#[verifier::external_body]
pub(crate) fn clif_type(t: IrType) -> (r: ClifType)
    ensures
        ir_of(r) == t,
{
    match t {
        IrType::B1 => types::B1,
        IrType::I8 => types::I8,
        IrType::I16 => types::I16,
        IrType::I32 => types::I32,
        IrType::I64 => types::I64,
        IrType::F32 => types::F32,
        IrType::F64 => types::F64,
    }
}

/// `Signature::new`, for the System V convention: the signature takes and
/// returns nothing.
#[verifier::external_body]
pub(crate) fn new_signature() -> (r: Signature)
    ensures
        signature_view(r) == (SigView {
            params: seq![],
            returns: seq![],
            convention: Convention::SystemV,
        }),
{
    Signature::new(codegen::isa::CallConv::SystemV)
}

/// Pushes an `AbiParam::new` onto the `params` of a `Signature`: the signature
/// takes one more argument, and nothing else changes.
#[verifier::external_body]
pub(crate) fn push_param(s: &mut Signature, t: ClifType)
    ensures
        signature_view(*final(s)) == (SigView {
            params: signature_view(*old(s)).params.push(ir_of(t)),
            ..signature_view(*old(s))
        }),
{
    s.params.push(AbiParam::new(t));
}

/// Pushes an `AbiParam::new` onto the `returns` of a `Signature`: the signature
/// returns one more value, and nothing else changes.
#[verifier::external_body]
pub(crate) fn push_return(s: &mut Signature, t: ClifType)
    ensures
        signature_view(*final(s)) == (SigView {
            returns: signature_view(*old(s)).returns.push(ir_of(t)),
            ..signature_view(*old(s))
        }),
{
    s.returns.push(AbiParam::new(t));
}

/// A copy of the signature of the `func` of a `Context`.
#[verifier::external_body]
pub(crate) fn context_signature(c: &Context) -> (r: Signature)
    ensures
        signature_view(r) == context_code(*c).signature,
{
    c.func.signature.clone()
}

/// Puts a signature in the `func` of a `Context` that holds nothing else, in place
/// of the one it had; nothing else changes.
#[verifier::external_body]
pub(crate) fn set_signature(c: &mut Context, s: Signature)
    requires
        context_code(*old(c)).body.len() == 0,
    ensures
        context_code(*final(c)) == (Code {
            signature: signature_view(s),
            ..context_code(*old(c))
        }),
{
    c.func.signature = s;
}

/// A copy of the `func` of a `Context`.
#[verifier::external_body]
pub(crate) fn context_function(c: &Context) -> (r: Function)
    ensures
        function_code(r) == context_code(*c),
{
    c.func.clone()
}

/// Puts a function in a `Context`, in place of one that holds nothing. What a
/// `Context` knows of a function that was compiled in it goes only when it is
/// cleared.
#[verifier::external_body]
pub(crate) fn set_function(c: &mut Context, f: Function)
    requires
        context_code(*old(c)).body.len() == 0,
    ensures
        context_code(*final(c)) == function_code(f),
{
    c.func = f;
}

/// The text that the `Display` of a `Function` writes. It is a function of what
/// the function holds; what it is, is not stated.
#[verifier::external_body]
pub(crate) fn display(f: &Function) -> (r: String)
    ensures
        r@ == function_text(function_code(*f)),
{
    format!("{}", f)
}

} // verus!
