//! Cranelift's object module: the target, declarations and definitions.
//!
//! Functions and data objects go by their numbers in the module.

use vstd::prelude::*;

use cranelift::codegen::Context;
use cranelift::prelude::{isa, settings, Configurable, EntityRef, FunctionBuilder, Signature};
use cranelift_module::{DataContext, DataId, FuncId, Linkage, Module, ModuleError};
use cranelift_object::{ObjectBuilder, ObjectModule, ObjectProduct};
use std::str::FromStr;
use target_lexicon::{ParseError, Triple};

use crate::clif::{blank, builder_code, called, context_code, signature_view, takes};
use crate::module_log::{
    code_refusal, contents_refusal, data_answer, data_refusal, function_answer, follows,
    function_refusal, has_data, has_function, granted_function, links_known, owned_data,
    owned_function, signature_of, Entry, Log, ModuleFailure, Visibility,
};
use crate::protocol::{lawful, replay, Code};
use crate::size::{body_size, fits};
use crate::step::{Action, Convention};

verus! {

/// The settings of a code generator, while they are made.
#[verifier::external_type_specification]
#[verifier::external_body]
pub struct ExSettingsBuilder(settings::Builder);

/// The settings of a code generator.
#[verifier::external_type_specification]
#[verifier::external_body]
pub struct ExFlags(settings::Flags);

/// Why a setting cannot be made.
#[verifier::external_type_specification]
#[verifier::external_body]
pub struct ExSetError(settings::SetError);

/// The name of a machine.
#[verifier::external_type_specification]
#[verifier::external_body]
pub struct ExTriple(Triple);

/// Why a text is not the name of a machine.
#[verifier::external_type_specification]
#[verifier::external_body]
pub struct ExParseError(ParseError);

/// A code generator for a machine, while it is made.
#[verifier::external_type_specification]
#[verifier::external_body]
pub struct ExIsaBuilder(isa::Builder);

/// Why there is no code generator for a machine.
#[verifier::external_type_specification]
#[verifier::external_body]
pub struct ExLookupError(isa::LookupError);

/// An object module, while it is made.
#[verifier::external_type_specification]
#[verifier::external_body]
pub struct ExObjectBuilder(ObjectBuilder);

/// A module that becomes an object file.
#[verifier::external_type_specification]
#[verifier::external_body]
pub struct ExObjectModule(ObjectModule);

/// A module that is complete.
#[verifier::external_type_specification]
#[verifier::external_body]
pub struct ExObjectProduct(ObjectProduct);

/// Why a module refuses something.
#[verifier::external_type_specification]
#[verifier::external_body]
pub struct ExModuleError(ModuleError);

/// Settings that were made, in order: names and values.
pub type Settings = Seq<(Seq<char>, Seq<char>)>;

/// The settings that code is made with: it is both fast and small.
pub open spec fn usual_settings() -> Settings {
    seq![("opt_level"@, "speed_and_size"@)]
}

/// The machine that code is made for: 64-bit x86, with the ELF format.
pub open spec fn usual_triple() -> Triple {
    parsed_triple("x86_64-elf"@)->Ok_0
}

/// What a module is made for.
pub struct Target {
    pub settings: Settings,
    pub triple: Triple,
    /// The name that the object file has for itself.
    pub name: Seq<char>,
}

/// The settings that a builder holds.
pub uninterp spec fn builder_settings(b: settings::Builder) -> Settings;

/// The settings that flags were made from.
pub uninterp spec fn flag_settings(f: settings::Flags) -> Settings;

/// The machine that a text names.
pub uninterp spec fn parsed_triple(text: Seq<char>) -> Result<Triple, ParseError>;

/// The machine that a code generator was looked up for. Nothing was set in it
/// since.
pub uninterp spec fn looked_up_for(b: isa::Builder) -> Triple;

/// What a module builder is for.
pub uninterp spec fn builder_target(b: ObjectBuilder) -> Target;

/// What a module is for.
pub uninterp spec fn module_target(m: ObjectModule) -> Target;

/// What was asked of a module.
pub uninterp spec fn module_log(m: ObjectModule) -> Log;

/// What a complete module was for.
pub uninterp spec fn product_target(p: ObjectProduct) -> Target;

/// What was asked of a complete module.
pub uninterp spec fn product_log(p: ObjectProduct) -> Log;

/// Why a module refused something.
pub uninterp spec fn failure(e: ModuleError) -> ModuleFailure;

/// How a machine passes arguments where nothing else is said.
pub uninterp spec fn default_convention(t: Triple) -> Convention;

/// Whether there is a setting of a name that takes a value.
pub uninterp spec fn setting_taken(name: Seq<char>, value: Seq<char>) -> bool;

/// Whether an object file can be for a machine.
pub uninterp spec fn object_writable(t: Triple) -> bool;

/// Whether a function can be compiled for a target.
pub uninterp spec fn compiles(t: Target, c: Code) -> bool;

/// The object file that a module becomes, if it becomes one.
pub uninterp spec fn object_file(t: Target, log: Log) -> Option<Seq<u8>>;

/// Why something was refused, if it was.
pub open spec fn refused<T>(r: Result<T, ModuleError>) -> Option<ModuleFailure> {
    match r {
        Ok(_) => None,
        Err(e) => Some(failure(e)),
    }
}

/// The number that was given, if one was.
pub open spec fn answer(r: Result<usize, ModuleError>) -> Option<int> {
    match r {
        Ok(id) => Some(id as int),
        Err(_) => None,
    }
}

/// `settings::builder`: no setting was made.
#[verifier::external_body]
pub(crate) fn new_settings() -> (r: settings::Builder)
    ensures
        builder_settings(r) == Settings::empty(),
{
    settings::builder()
}

/// `Configurable::set`, of the settings that all machines share: makes a setting,
/// or leaves all settings as they are where there is no such setting or no such
/// value. Which there are is a function of the name and the value; of one of them
/// it is stated.
#[verifier::external_body]
pub(crate) fn make_setting(b: &mut settings::Builder, name: &str, value: &str) -> (r: Result<
    (),
    settings::SetError,
>)
    ensures
        builder_settings(*final(b)) == if r is Ok {
            builder_settings(*old(b)).push((name@, value@))
        } else {
            builder_settings(*old(b))
        },
        r is Ok <==> setting_taken(name@, value@),
        name@ == "opt_level"@ && value@ == "speed_and_size"@ ==> r is Ok,
{
    b.set(name, value)
}

/// `settings::Flags::new`: the flags have the settings that were made.
#[verifier::external_body]
pub(crate) fn new_flags(b: settings::Builder) -> (r: settings::Flags)
    ensures
        flag_settings(r) == builder_settings(b),
{
    settings::Flags::new(b)
}

/// `Triple::from_str`: the machine that a text names. It is a function of the
/// text; of one text it is stated that it names a machine, which passes
/// arguments the System V way, and which an object file can be for.
#[verifier::external_body]
pub(crate) fn parse_triple(text: &str) -> (r: Result<Triple, ParseError>)
    ensures
        r == parsed_triple(text@),
        text@ == "x86_64-elf"@ ==> r is Ok && object_writable(r->Ok_0) && default_convention(
            r->Ok_0,
        ) == Convention::SystemV,
{
    Triple::from_str(text)
}

/// `isa::lookup`: a code generator for a machine. Which machines there are code
/// generators for depends on how Cranelift was built, and is not stated. Some of
/// them assert things of the machine; the one that is asked for here does not.
#[verifier::external_body]
pub(crate) fn lookup_isa(t: Triple) -> (r: Result<isa::Builder, isa::LookupError>)
    requires
        t == usual_triple(),
    ensures
        r matches Ok(b) ==> looked_up_for(b) == t,
{
    isa::lookup(t)
}

/// `isa::Builder::finish` and then `ObjectBuilder::new`, with the names that
/// `default_libcall_names` gives: a module for a code generator and its
/// settings. It fails where an object file cannot be for the machine, and in no
/// other way; which machines it can be for is a function of the machine. The name
/// becomes one of the file's strings, which end at a null and hold none.
#[verifier::external_body]
pub(crate) fn new_object_builder(b: isa::Builder, f: settings::Flags, name: &str) -> (r: Result<
    ObjectBuilder,
    ModuleError,
>)
    requires
        looked_up_for(b) == usual_triple(),
        !name@.contains('\0'),
    ensures
        r matches Ok(o) ==> builder_target(o) == (Target {
            settings: flag_settings(f),
            triple: looked_up_for(b),
            name: name@,
        }),
        r is Ok <==> object_writable(looked_up_for(b)),
        refused(r) is Some ==> refused(r) == Some(ModuleFailure::Backend),
{
    ObjectBuilder::new(b.finish(f), name, cranelift_module::default_libcall_names())
}

/// `ObjectModule::new`: nothing was asked of the module.
#[verifier::external_body]
pub(crate) fn new_module(b: ObjectBuilder) -> (r: ObjectModule)
    ensures
        module_target(r) == builder_target(b),
        module_log(r) == Log::empty(),
{
    ObjectModule::new(b)
}

/// `Module::make_context`: the function holds nothing, and has the convention
/// of the module's machine.
#[verifier::external_body]
pub(crate) fn make_context(m: &ObjectModule) -> (r: Context)
    ensures
        context_code(r) == blank(default_convention(module_target(*m).triple)),
{
    m.make_context()
}

/// `Module::clear_context`: afterwards the function holds nothing, and has the
/// convention of the module's machine.
#[verifier::external_body]
pub(crate) fn clear_context(m: &ObjectModule, c: &mut Context)
    ensures
        context_code(*final(c)) == blank(default_convention(module_target(*m).triple)),
{
    m.clear_context(c);
}

/// The variant of a `ModuleError`.
#[verifier::external_body]
pub(crate) fn classify(e: &ModuleError) -> (r: ModuleFailure)
    ensures
        r == failure(*e),
{
    match e {
        ModuleError::Undeclared(..) => ModuleFailure::Undeclared,
        ModuleError::IncompatibleDeclaration(..) => ModuleFailure::IncompatibleDeclaration,
        ModuleError::IncompatibleSignature(..) => ModuleFailure::IncompatibleSignature,
        ModuleError::DuplicateDefinition(..) => ModuleFailure::DuplicateDefinition,
        ModuleError::InvalidImportDefinition(..) => ModuleFailure::InvalidImportDefinition,
        ModuleError::Compilation(..) => ModuleFailure::Compilation,
        ModuleError::Backend(..) => ModuleFailure::Backend,
    }
}

/// `Module::declare_function` of an `ObjectModule`: the number of the function
/// of a name; functions are numbered as their names come up. It is refused where the name
/// holds a null, is that of data, or is that of a function with another
/// signature.
#[verifier::external_body]
pub(crate) fn declare_function(
    m: &mut ObjectModule,
    name: &str,
    v: Visibility,
    s: &Signature,
) -> (r: Result<usize, ModuleError>)
    ensures
        module_target(*final(m)) == module_target(*old(m)),
        module_log(*final(m)) == module_log(*old(m)).push(
            Entry::DeclareFunction {
                name: name@,
                visibility: v,
                signature: signature_view(*s),
                id: answer(r),
            },
        ),
        follows(module_log(*old(m)), module_log(*final(m)).last()),
        refused(r) == function_refusal(module_log(*old(m)), name@, signature_view(*s)),
        answer(r) == function_answer(module_log(*old(m)), name@, signature_view(*s)),
{
    let linkage = match v {
        Visibility::Import => Linkage::Import,
        Visibility::Hidden => Linkage::Hidden,
        Visibility::Export => Linkage::Export,
    };
    m.declare_function(name, linkage, s).map(|id| id.index())
}

/// `Module::declare_data` of an `ObjectModule`, for data that all threads share:
/// the number of the data object of a name; data objects are numbered as their
/// names come up. It is refused where the name holds a null or is that of a function.
#[verifier::external_body]
pub(crate) fn declare_data(
    m: &mut ObjectModule,
    name: &str,
    v: Visibility,
    writable: bool,
) -> (r: Result<usize, ModuleError>)
    ensures
        module_target(*final(m)) == module_target(*old(m)),
        module_log(*final(m)) == module_log(*old(m)).push(
            Entry::DeclareData { name: name@, visibility: v, writable, id: answer(r) },
        ),
        follows(module_log(*old(m)), module_log(*final(m)).last()),
        refused(r) == data_refusal(module_log(*old(m)), name@),
        answer(r) == data_answer(module_log(*old(m)), name@),
{
    let linkage = match v {
        Visibility::Import => Linkage::Import,
        Visibility::Hidden => Linkage::Hidden,
        Visibility::Export => Linkage::Export,
    };
    m.declare_data(name, linkage, writable, false).map(|id| id.index())
}

/// `Module::define_data` of an `ObjectModule`, with a `DataContext` that holds
/// the bytes and nothing else: gives a data object its contents. It is refused
/// where the object is defined elsewhere, or has its contents.
#[verifier::external_body]
pub(crate) fn define_data(m: &mut ObjectModule, id: usize, bytes: &Vec<u8>) -> (r: Result<
    (),
    ModuleError,
>)
    requires
        has_data(module_log(*old(m)), id as int),
    ensures
        module_target(*final(m)) == module_target(*old(m)),
        module_log(*final(m)) == module_log(*old(m)).push(
            Entry::DefineData { id: id as int, bytes: bytes@, done: r is Ok },
        ),
        refused(r) == contents_refusal(module_log(*old(m)), id as int),
{
    let mut data = DataContext::new();
    data.define(bytes.clone().into_boxed_slice());
    m.define_data(DataId::new(id), &data)
}

/// `Module::define_function` of an `ObjectModule`: compiles the function of a
/// context and gives it to a number. It is refused where the function does not
/// compile, and where the number has its code. Whether a function compiles is a
/// function of the target and of what the function holds; what it is, is not
/// stated. The compiler stops the program on functions that are too large, or
/// that the builder's rules leave out, on a symbol that was never granted to be
/// defined here, under settings that keep it from looking at types first, and on
/// some machines; `finish` does so on a function that refers to what the module
/// does not have.
#[verifier::external_body]
pub(crate) fn define_function(m: &mut ObjectModule, id: usize, c: &mut Context) -> (r: Result<
    (),
    ModuleError,
>)
    requires
        module_target(*old(m)).settings == usual_settings(),
        module_target(*old(m)).triple == usual_triple(),
        links_known(context_code(*old(c)).body, module_log(*old(m))),
        granted_function(module_log(*old(m)), id as int),
        lawful(context_code(*old(c)).body),
        replay(context_code(*old(c)).body).phase is Finished,
        fits(body_size(context_code(*old(c)).body)),
    ensures
        module_target(*final(m)) == module_target(*old(m)),
        module_log(*final(m)) == module_log(*old(m)).push(
            Entry::DefineFunction { id: id as int, code: context_code(*old(c)), done: r is Ok },
        ),
        refused(r) == code_refusal(
            module_log(*old(m)),
            id as int,
            compiles(module_target(*old(m)), context_code(*old(c))),
        ),
{
    m.define_function(FuncId::new(id), c).map(|_| ())
}

/// To make a function of a module known to a function that is being built.
pub open spec fn function_link(log: Log, id: usize) -> Action {
    Action::LinkFunction(
        id as int,
        signature_of(log, id as int),
        owned_function(log, id as int),
    )
}

/// To make a data object of a module known to a function that is being built.
pub open spec fn data_link(log: Log, id: usize) -> Action {
    Action::LinkData(id as int, owned_data(log, id as int))
}

/// `Module::declare_func_in_func`, in the `func` of a `FunctionBuilder`: makes a
/// function known to the one that is being built, under the next number.
#[verifier::external_body]
pub(crate) fn link_function(b: &mut FunctionBuilder<'_>, m: &ObjectModule, id: usize) -> (r: usize)
    requires
        has_function(module_log(*m), id as int, signature_of(module_log(*m), id as int)),
        signature_of(module_log(*m), id as int).returns.len() == 1,
        takes(builder_code(*old(b)), function_link(module_log(*m), id)),
    ensures
        called(
            builder_code(*old(b)),
            function_link(module_log(*m), id),
            r,
            builder_code(*final(b)),
        ),
{
    m.declare_func_in_func(FuncId::new(id), b.func).index()
}

/// `Module::declare_data_in_func`, in the `func` of a `FunctionBuilder`: makes a
/// data object known to the function that is being built, under the next number.
#[verifier::external_body]
pub(crate) fn link_data(b: &mut FunctionBuilder<'_>, m: &ObjectModule, id: usize) -> (r: usize)
    requires
        has_data(module_log(*m), id as int),
        takes(builder_code(*old(b)), data_link(module_log(*m), id)),
    ensures
        called(builder_code(*old(b)), data_link(module_log(*m), id), r, builder_code(*final(b))),
{
    m.declare_data_in_func(DataId::new(id), b.func).index()
}

/// `ObjectModule::finish`: the module is complete. It looks up what the functions
/// of the module refer to, which was there when they were defined.
#[verifier::external_body]
pub(crate) fn finish(m: ObjectModule) -> (r: ObjectProduct)
    ensures
        product_target(r) == module_target(m),
        product_log(r) == module_log(m),
{
    m.finish()
}

/// `ObjectProduct::emit`: the bytes of the object file, if the format can hold
/// what the module holds. They are a function of what the module is for and of
/// what was asked of it; what they are, is not stated. It asserts that no string
/// of the file holds a null: neither a symbol nor the file's own name does.
#[verifier::external_body]
pub(crate) fn emit_product(p: ObjectProduct) -> (r: Option<Vec<u8>>)
    ensures
        match r {
            Some(bytes) => object_file(product_target(p), product_log(p)) == Some(bytes@),
            None => object_file(product_target(p), product_log(p)) is None,
        },
{
    p.emit().ok()
}

} // verus!
