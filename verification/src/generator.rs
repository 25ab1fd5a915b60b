//! The generator: function definitions in, an object file out.

use vstd::prelude::*;

use cranelift::codegen::Context;
use cranelift::prelude::{isa, Signature};
use cranelift_object::ObjectModule;

use crate::accept::law_function_is_accepted;
use crate::answers::{all_rightly, lemma_rightly_push};
use crate::ast::{any_generic, generic, SExpr, Type};
use crate::clif::{
    blank, clif_type, context_code, context_function, context_signature, display, function_text,
    push_param, push_return, set_function, set_signature, signature_view,
};
use crate::clif_builder::{built, new_builder, new_builder_context};
use crate::clif_module::{
    classify, clear_context, compiles, declare_function, default_convention, define_function,
    emit_product, failure, finish, flag_settings, looked_up_for, lookup_isa, make_context,
    make_setting, module_log, module_target, new_flags, new_module, new_object_builder,
    new_settings, object_file, object_writable, parse_triple, parsed_triple, usual_settings,
    usual_triple, Target,
};
use crate::emit::{emit, lemma_history_size, stopped_at};
use crate::exports::{exports_exactly, law_exports_are_exact};
use crate::function::{arg_types, function_translatable, lower_function};
use crate::ir::{all_ir, ir_type, ir_types, IrType};
use crate::lower::ir;
use crate::mangle::{has_symbol, symbol, targets};
use crate::module_log::{
    code_refusal, declares_function, function_refusal, granted_function, grants_function,
    has_function, lemma_links_push, lemma_orderly_push, orderly, Entry, Log, ModuleFailure,
    Visibility,
};
use crate::prefix::lemma_function_begins;
use crate::protocol::{lawful, replay, Code};
use crate::renaming::{history, requests, settled};
use crate::step::{actions, ints, Action, Convention, SigView};

verus! {

/// Why something cannot be done.
#[derive(Clone, Copy, Debug, PartialEq, Eq, Structural)]
pub enum Error {
    /// A setting of the code generator cannot be made.
    Setting,
    /// The name of the machine is not understood.
    Triple,
    /// There is no code generator for the machine.
    Isa,
    /// The module refused something.
    Module(ModuleFailure),
    /// The object file cannot be written.
    Emit,
}

/// Collects functions and writes them to an object file.
pub struct Generator {
    ctx: Context,
    module: ObjectModule,
    listings: Vec<String>,
}

/// Some texts.
pub open spec fn texts(s: Seq<String>) -> Seq<Seq<char>> {
    Seq::new(s.len(), |i: int| s[i]@)
}

/// A function definition.
pub struct Definition<'a> {
    pub name: Seq<char>,
    pub args: Seq<(&'a str, Type<'a>)>,
    pub ret: Type<'a>,
    pub expr: SExpr<'a>,
}

/// The definition that an expression is, if code is made for it: none is made
/// for a definition with type parameters, nor for any other expression.
pub open spec fn definition<'a>(e: SExpr<'a>) -> Option<Definition<'a>> {
    match e {
        SExpr::FuncDef { name, ret_type, args, expr, .. } => if any_generic(arg_types(args@))
            || generic(ret_type) {
            None
        } else {
            Some(Definition { name: name@, args: args@, ret: ret_type, expr: *expr })
        },
        _ => None,
    }
}

/// Whether code can be made for an expression, if any is made for it.
pub open spec fn compilable(e: SExpr<'_>) -> bool {
    definition(e) matches Some(d) ==> function_translatable(d.name, d.args, d.ret, d.expr)
}

/// What a module and a builder gave for a definition.
pub struct Answers {
    /// What each planned step gave.
    pub given: Seq<int>,
    /// The number of the function.
    pub id: int,
}

impl<'a> Definition<'a> {
    /// The steps that build the function.
    pub open spec fn plan(self) -> Seq<Action> {
        lower_function(self.args, self.ret, self.expr)
    }

    /// The symbol that the function is exported under.
    pub open spec fn symbol(self) -> Seq<char> {
        symbol(self.name, arg_types(self.args), self.ret)
    }

    /// What the function takes and returns.
    pub open spec fn signature(self, convention: Convention) -> SigView {
        SigView {
            params: ir_types(arg_types(self.args)),
            returns: seq![ir(self.ret)],
            convention,
        }
    }

    /// What was asked of the module once the function is built, where `log` was
    /// asked before.
    pub open spec fn planned(self, given: Seq<int>, log: Log) -> Log {
        log + requests(self.plan(), given)
    }

    /// The function, once it is built.
    pub open spec fn code(self, given: Seq<int>, log: Log, convention: Convention) -> Code {
        Code { signature: self.signature(convention), body: history(self.plan(), given, log) }
    }

    /// To declare the function for everyone.
    pub open spec fn declaration(self, convention: Convention, id: Option<int>) -> Entry {
        Entry::DeclareFunction {
            name: self.symbol(),
            visibility: Visibility::Export,
            signature: self.signature(convention),
            id,
        }
    }

    /// What was asked of the module once the function is declared.
    pub open spec fn declared(self, answers: Answers, log: Log, convention: Convention) -> Log {
        self.planned(answers.given, log).push(self.declaration(convention, Some(answers.id)))
    }

    /// To give the function its code.
    pub open spec fn request(
        self,
        answers: Answers,
        log: Log,
        convention: Convention,
        done: bool,
    ) -> Entry {
        Entry::DefineFunction {
            id: answers.id,
            code: self.code(answers.given, log, convention),
            done,
        }
    }

    /// What was asked of the module once the function is defined.
    pub open spec fn defined(self, answers: Answers, log: Log, convention: Convention) -> Log {
        self.declared(answers, log, convention).push(self.request(answers, log, convention, true))
    }

    /// How the function reads.
    pub open spec fn text(self, given: Seq<int>, log: Log, convention: Convention) -> Seq<char> {
        function_text(self.code(given, log, convention))
    }
}

/// What was asked of the module once code was made for some expressions, where
/// `log` was asked before.
pub open spec fn compiled(
    es: Seq<SExpr<'_>>,
    answers: Seq<Answers>,
    log: Log,
    convention: Convention,
) -> Log
    decreases es.len(),
{
    if es.len() == 0 {
        log
    } else {
        let before = compiled(es.drop_last(), answers.drop_last(), log, convention);
        match definition(es.last()) {
            Some(d) => d.defined(answers.last(), before, convention),
            None => before,
        }
    }
}

/// How the functions of some expressions read.
pub open spec fn listed(
    es: Seq<SExpr<'_>>,
    answers: Seq<Answers>,
    log: Log,
    convention: Convention,
) -> Seq<Seq<char>>
    decreases es.len(),
{
    if es.len() == 0 {
        seq![]
    } else {
        let before = listed(es.drop_last(), answers.drop_last(), log, convention);
        match definition(es.last()) {
            Some(d) => before.push(
                d.text(
                    answers.last().given,
                    compiled(es.drop_last(), answers.drop_last(), log, convention),
                    convention,
                ),
            ),
            None => before,
        }
    }
}

/// Whether a definition was built to its end, by the rules of the builder.
pub open spec fn built_to_end(d: Definition<'_>, given: Seq<int>, log: Log) -> bool {
    &&& given.len() == d.plan().len()
    &&& settled(d.plan(), given)
    &&& lawful(history(d.plan(), given, log))
    &&& replay(history(d.plan(), given, log)).phase is Finished
}

/// How far a definition came that was refused.
pub enum Stop {
    /// A request of its plan was refused; the steps before it gave this.
    Building(Seq<int>),
    /// It was built, and its declaration was refused.
    Declaring(Seq<int>),
    /// It was declared, and its code was refused.
    Defining(Answers),
}

/// Whether a definition was refused at some point, where `log` was asked of the
/// module before and `after` in the end.
pub open spec fn stopped(
    d: Definition<'_>,
    stop: Stop,
    log: Log,
    after: Log,
    target: Target,
    e: ModuleFailure,
) -> bool {
    let convention = default_convention(target.triple);
    match stop {
        Stop::Building(m) => stopped_at(d.plan(), m, log, after, e),
        Stop::Declaring(m) => {
            &&& built_to_end(d, m, log)
            &&& function_refusal(d.planned(m, log), d.symbol(), d.signature(convention)) == Some(e)
            &&& after == d.planned(m, log).push(d.declaration(convention, None))
        },
        Stop::Defining(a) => {
            &&& built_to_end(d, a.given, log)
            &&& code_refusal(
                d.declared(a, log, convention),
                a.id,
                compiles(target, d.code(a.given, log, convention)),
            ) == Some(e)
            &&& after == d.declared(a, log, convention).push(d.request(a, log, convention, false))
        },
    }
}

/// How a definition reads that was refused: nothing is there to be read unless
/// it was built.
pub open spec fn stopped_text(
    d: Definition<'_>,
    stop: Stop,
    log: Log,
    convention: Convention,
) -> Seq<Seq<char>> {
    match stop {
        Stop::Building(_) => seq![],
        Stop::Declaring(m) => seq![d.text(m, log, convention)],
        Stop::Defining(a) => seq![d.text(a.given, log, convention)],
    }
}

/// Whether code was made for a definition: what was asked of the module, and
/// what there is to be read.
pub open spec fn made(
    d: Definition<'_>,
    a: Answers,
    log: Log,
    after: Log,
    read: Seq<Seq<char>>,
    read_after: Seq<Seq<char>>,
    convention: Convention,
) -> bool {
    &&& built_to_end(d, a.given, log)
    &&& after == d.defined(a, log, convention)
    &&& read_after == read.push(d.text(a.given, log, convention))
}

/// Whether a definition was refused: what was asked of the module, and what
/// there is to be read.
pub open spec fn unmade(
    d: Definition<'_>,
    stop: Stop,
    log: Log,
    after: Log,
    read: Seq<Seq<char>>,
    read_after: Seq<Seq<char>>,
    target: Target,
    e: ModuleFailure,
) -> bool {
    &&& stopped(d, stop, log, after, target, e)
    &&& read_after == read + stopped_text(d, stop, log, default_convention(target.triple))
}

/// Whether every definition was built to its end.
pub open spec fn all_built(
    es: Seq<SExpr<'_>>,
    a: Seq<Answers>,
    log: Log,
    convention: Convention,
) -> bool {
    &&& a.len() == es.len()
    &&& forall|i: int|
        0 <= i < es.len() ==> (definition(#[trigger] es[i]) matches Some(d) ==> built_to_end(
            d,
            a[i].given,
            compiled(es.take(i), a.take(i), log, convention),
        ))
}

/// Whether code was made for some expressions.
pub open spec fn all_made(
    es: Seq<SExpr<'_>>,
    a: Seq<Answers>,
    log: Log,
    after: Log,
    read: Seq<Seq<char>>,
    read_after: Seq<Seq<char>>,
    convention: Convention,
) -> bool {
    &&& all_built(es, a, log, convention)
    &&& after == compiled(es, a, log, convention)
    &&& read_after == read + listed(es, a, log, convention)
}

/// Whether code was made for the first of some expressions, up to a definition
/// that was refused.
pub open spec fn partly_made(
    es: Seq<SExpr<'_>>,
    a: Seq<Answers>,
    stop: Stop,
    log: Log,
    after: Log,
    read: Seq<Seq<char>>,
    read_after: Seq<Seq<char>>,
    target: Target,
    e: ModuleFailure,
) -> bool {
    let first = es.take(a.len() as int);
    let convention = default_convention(target.triple);
    &&& a.len() < es.len()
    &&& all_built(first, a, log, convention)
    &&& definition(es[a.len() as int]) matches Some(d) && unmade(
        d,
        stop,
        compiled(first, a, log, convention),
        after,
        read + listed(first, a, log, convention),
        read_after,
        target,
        e,
    )
}

impl Generator {
    /// What the object file is for.
    pub closed spec fn target(&self) -> Target {
        module_target(self.module)
    }

    /// What was asked of the module.
    pub closed spec fn log(&self) -> Log {
        module_log(self.module)
    }

    /// How the functions read that were built and not yet taken.
    pub closed spec fn texts(&self) -> Seq<Seq<char>> {
        texts(self.listings@)
    }

    /// The function that is in the works.
    pub closed spec fn context(&self) -> Code {
        context_code(self.ctx)
    }

    /// How functions are called.
    pub open spec fn convention(&self) -> Convention {
        default_convention(self.target().triple)
    }

    /// Between two functions the context is blank; code is made for the usual
    /// machine, with the usual settings; what was declared and defined goes
    /// together, and was granted rightly.
    pub closed spec fn inv(&self) -> bool {
        &&& context_code(self.ctx) == blank(default_convention(module_target(self.module).triple))
        &&& module_target(self.module).settings == usual_settings()
        &&& module_target(self.module).triple == usual_triple()
        &&& orderly(module_log(self.module))
        &&& all_rightly(module_target(self.module), module_log(self.module))
    }

    /// A generator with no functions, for 64-bit x86 and the ELF format, that
    /// makes code both fast and small. It cannot be made where Cranelift was built
    /// without a code generator for the machine, and in no other case.
    pub fn try_default() -> (r: Result<Generator, Error>)
        ensures
            parsed_triple("x86_64-elf"@) is Ok,
            match r {
                Ok(g) => {
                    &&& g.inv()
                    &&& g.log() == Log::empty()
                    &&& g.texts() == Seq::<Seq<char>>::empty()
                    &&& g.convention() == Convention::SystemV
                    &&& g.target() == (Target {
                        settings: usual_settings(),
                        triple: usual_triple(),
                        name: "x86_64"@,
                    })
                },
                Err(e) => e == Error::Isa,
            },
    {
        match parse_triple("x86_64-elf") {
            Ok(t) => Self::from_isa(lookup_isa(t)),
            Err(_) => Err(Error::Triple),
        }
    }

    /// A generator with no functions, for a code generator that was looked up for
    /// 64-bit x86 and the ELF format, that makes code both fast and small.
    pub fn from_isa(isa: Result<isa::Builder, isa::LookupError>) -> (r: Result<Generator, Error>)
        requires
            isa matches Ok(b) ==> looked_up_for(b) == usual_triple(),
        ensures
            match isa {
                Err(_) => r == Err::<Generator, Error>(Error::Isa),
                Ok(b) => match r {
                    Ok(g) => {
                        &&& object_writable(looked_up_for(b))
                        &&& g.inv()
                        &&& g.log() == Log::empty()
                        &&& g.texts() == Seq::<Seq<char>>::empty()
                        &&& g.target() == (Target {
                            settings: usual_settings(),
                            triple: looked_up_for(b),
                            name: "x86_64"@,
                        })
                    },
                    Err(e) => {
                        &&& !object_writable(looked_up_for(b))
                        &&& e == Error::Module(ModuleFailure::Backend)
                    },
                },
            },
    {
        let isa = match isa {
            Ok(i) => i,
            Err(_) => return Err(Error::Isa),
        };
        let mut b = new_settings();
        match make_setting(&mut b, "opt_level", "speed_and_size") {
            Ok(()) => {},
            Err(_) => return Err(Error::Setting),
        }
        let flags = new_flags(b);
        assert(flag_settings(flags) =~= usual_settings());
        proof {
            reveal_strlit("x86_64");
        }
        let builder = match new_object_builder(isa, flags, "x86_64") {
            Ok(o) => o,
            Err(e) => return Err(Error::Module(classify(&e))),
        };
        let module = new_module(builder);
        let ctx = make_context(&module);
        let g = Generator { ctx, module, listings: Vec::new() };
        assert(g.texts() =~= Seq::<Seq<char>>::empty());
        Ok(g)
    }

    /// The signature of a definition, on top of that of the blank context.
    fn definition_signature(&self, args: &Vec<(&str, Type<'_>)>, ret_type: &Type<'_>) -> (s:
        Signature)
        requires
            self.inv(),
            all_ir(arg_types(args@)),
            ir_type(*ret_type) is Some,
        ensures
            signature_view(s) == (SigView {
                params: ir_types(arg_types(args@)),
                returns: seq![ir(*ret_type)],
                convention: self.convention(),
            }),
    {
        let ghost types = arg_types(args@);
        let mut s = context_signature(&self.ctx);
        let mut i: usize = 0;
        while i < args.len()
            invariant
                i <= args.len(),
                types == arg_types(args@),
                all_ir(types),
                signature_view(s).params == ir_types(types).take(i as int),
                signature_view(s).returns == Seq::<IrType>::empty(),
                signature_view(s).convention == self.convention(),
            decreases args.len() - i,
        {
            assert(types[i as int] == args@[i as int].1);
            push_param(&mut s, clif_type(Self::convert_type_to_type(&args[i].1)));
            assert(ir_types(types).take(i + 1) =~= ir_types(types).take(i as int).push(
                ir_types(types)[i as int],
            ));
            i += 1;
        }
        push_return(&mut s, clif_type(Self::convert_type_to_type(ret_type)));
        assert(ir_types(types).take(i as int) =~= ir_types(types));
        assert(signature_view(s).returns =~= seq![ir(*ret_type)]);
        s
    }

    /// The symbol of a definition.
    fn definition_symbol<'a>(name: &str, args: &Vec<(&'a str, Type<'a>)>, ret_type: &Type<'a>) -> (r:
        String)
        requires
            has_symbol(name@, arg_types(args@), *ret_type),
        ensures
            r@ == symbol(name@, arg_types(args@), *ret_type),
    {
        let mut types: Vec<&Type<'a>> = Vec::new();
        let mut i: usize = 0;
        while i < args.len()
            invariant
                i <= args.len(),
                types@.len() == i,
                forall|j: int| 0 <= j < i ==> *(#[trigger] types@[j]) == args@[j].1,
            decreases args.len() - i,
        {
            types.push(&args[i].1);
            i += 1;
        }
        assert(targets(types@) =~= arg_types(args@));
        Self::mangle_func(name, &types, ret_type)
    }

    /// Makes code for a definition.
    fn translate_definition<'a>(
        &mut self,
        name: &str,
        args: &Vec<(&'a str, Type<'a>)>,
        ret_type: &Type<'a>,
        expr: &SExpr<'a>,
    ) -> (r: Result<(), ModuleFailure>)
        requires
            old(self).inv(),
            function_translatable(name@, args@, *ret_type, *expr),
        ensures
            final(self).inv(),
            final(self).target() == old(self).target(),
            match r {
                Ok(()) => exists|a: Answers| #[trigger]
                    made(
                        Definition { name: name@, args: args@, ret: *ret_type, expr: *expr },
                        a,
                        old(self).log(),
                        final(self).log(),
                        old(self).texts(),
                        final(self).texts(),
                        old(self).convention(),
                    ),
                Err(e) => exists|stop: Stop| #[trigger]
                    unmade(
                        Definition { name: name@, args: args@, ret: *ret_type, expr: *expr },
                        stop,
                        old(self).log(),
                        final(self).log(),
                        old(self).texts(),
                        final(self).texts(),
                        old(self).target(),
                        e,
                    ),
            },
    {
        let ghost d = Definition { name: name@, args: args@, ret: *ret_type, expr: *expr };
        let ghost log = self.log();
        let ghost target = self.target();
        let ghost convention = self.convention();
        let ghost read = self.texts();
        let steps = Self::translate_function(args, ret_type, expr);
        proof {
            law_function_is_accepted(name@, args@, *ret_type, *expr);
            lemma_function_begins(args@, *ret_type, *expr);
            assert(actions(steps@)[0] == steps@[0]@);
        }
        let s = self.definition_signature(args, ret_type);
        set_signature(&mut self.ctx, s);
        let mut func = context_function(&self.ctx);
        let mut buffers = new_builder_context();
        let mut builder = new_builder(&mut func, &mut buffers);
        let given = match emit(&steps, &mut builder, &mut self.module) {
            Ok(m) => m,
            Err(e) => {
                clear_context(&self.module, &mut self.ctx);
                proof {
                    let m = choose|m: Seq<int>| #[trigger]
                        stopped_at(d.plan(), m, log, self.log(), e);
                    let stop = Stop::Building(m);
                    assert(self.texts() =~= read + stopped_text(d, stop, log, convention));
                    assert(unmade(d, stop, log, self.log(), read, self.texts(), target, e));
                }
                return Err(e);
            },
        };
        let ghost m = ints(given@);
        let function = built(&builder);
        self.listings.push(display(&function));
        set_function(&mut self.ctx, function);
        proof {
            assert(context_code(self.ctx) == d.code(m, log, convention));
            assert(self.texts() =~= read.push(d.text(m, log, convention)));
        }
        let symbol = Self::definition_symbol(name, args, ret_type);
        let s = context_signature(&self.ctx);
        let ghost planned = self.log();
        let id = match declare_function(
            &mut self.module,
            symbol.as_str(),
            Visibility::Export,
            &s,
        ) {
            Ok(id) => id,
            Err(e) => {
                clear_context(&self.module, &mut self.ctx);
                proof {
                    lemma_orderly_push(planned, d.declaration(convention, None));
                    lemma_rightly_push(target, planned, d.declaration(convention, None));
                    let stop = Stop::Declaring(m);
                    assert(self.texts() =~= read + stopped_text(d, stop, log, convention));
                    assert(unmade(d, stop, log, self.log(), read, self.texts(), target, failure(e)));
                }
                return Err(classify(&e));
            },
        };
        let ghost a = Answers { given: m, id: id as int };
        let ghost declared = self.log();
        proof {
            lemma_orderly_push(planned, d.declaration(convention, Some(id as int)));
            lemma_rightly_push(target, planned, d.declaration(convention, Some(id as int)));
            assert(declares_function(declared.last(), id as int, d.signature(convention)));
            assert(has_function(declared, id as int, d.signature(convention)));
            assert(grants_function(declared.last(), id as int));
            assert(granted_function(declared, id as int));
            lemma_history_size(d.plan(), m, log);
            lemma_links_push(
                history(d.plan(), m, log),
                planned,
                d.declaration(convention, Some(id as int)),
            );
        }
        let r = define_function(&mut self.module, id, &mut self.ctx);
        clear_context(&self.module, &mut self.ctx);
        match r {
            Ok(()) => {
                proof {
                    lemma_orderly_push(declared, d.request(a, log, convention, true));
                    lemma_rightly_push(target, declared, d.request(a, log, convention, true));
                    assert(made(d, a, log, self.log(), read, self.texts(), convention));
                }
                Ok(())
            },
            Err(e) => {
                proof {
                    lemma_orderly_push(declared, d.request(a, log, convention, false));
                    lemma_rightly_push(target, declared, d.request(a, log, convention, false));
                    let stop = Stop::Defining(a);
                    assert(self.texts() =~= read + stopped_text(d, stop, log, convention));
                    assert(unmade(d, stop, log, self.log(), read, self.texts(), target, failure(e)));
                }
                Err(classify(&e))
            },
        }
    }

    /// Whether one of some parameters has a type parameter in its type.
    pub(crate) fn any_arg_generic(args: &Vec<(&str, Type<'_>)>) -> (r: bool)
        ensures
            r == any_generic(arg_types(args@)),
    {
        let ghost types = arg_types(args@);
        let mut found = false;
        let mut i: usize = 0;
        while i < args.len()
            invariant
                i <= args.len(),
                types == arg_types(args@),
                found == any_generic(types.take(i as int)),
            decreases args.len() - i,
        {
            assert(types.take(i + 1).drop_last() =~= types.take(i as int));
            assert(types.take(i + 1).last() == args@[i as int].1);
            found = found || args[i].1.has_generic();
            i += 1;
        }
        assert(types.take(i as int) =~= types);
        found
    }

    /// Makes code for the definitions among some expressions, in order, up to the
    /// first one that is refused.
    pub fn translate(&mut self, sexprs: &[SExpr<'_>]) -> (r: Result<(), Error>)
        requires
            old(self).inv(),
            forall|i: int| 0 <= i < sexprs@.len() ==> compilable(#[trigger] sexprs@[i]),
        ensures
            final(self).inv(),
            final(self).target() == old(self).target(),
            final(self).context() == blank(final(self).convention()),
            r is Ok && old(self).log() == Log::empty() ==> exports_exactly(
                final(self).log(),
                sexprs@,
            ),
            match r {
                Ok(()) => exists|a: Seq<Answers>| #[trigger]
                    all_made(
                        sexprs@,
                        a,
                        old(self).log(),
                        final(self).log(),
                        old(self).texts(),
                        final(self).texts(),
                        old(self).convention(),
                    ),
                Err(Error::Module(e)) => exists|a: Seq<Answers>, stop: Stop| #[trigger]
                    partly_made(
                        sexprs@,
                        a,
                        stop,
                        old(self).log(),
                        final(self).log(),
                        old(self).texts(),
                        final(self).texts(),
                        old(self).target(),
                        e,
                    ),
                Err(_) => false,
            },
    {
        let ghost es = sexprs@;
        let ghost log = self.log();
        let ghost read = self.texts();
        let ghost target = self.target();
        let ghost convention = self.convention();
        let ghost mut a: Seq<Answers> = Seq::empty();
        let mut i: usize = 0;
        assert(es.take(0) =~= seq![]);
        assert(read + Seq::<Seq<char>>::empty() =~= read);
        while i < sexprs.len()
            invariant
                i <= sexprs.len(),
                es == sexprs@,
                forall|i: int| 0 <= i < es.len() ==> compilable(#[trigger] es[i]),
                log == old(self).log(),
                read == old(self).texts(),
                target == old(self).target(),
                convention == old(self).convention(),
                self.inv(),
                self.target() == target,
                a.len() == i,
                all_made(
                    es.take(i as int),
                    a,
                    log,
                    self.log(),
                    read,
                    self.texts(),
                    convention,
                ),
            decreases sexprs.len() - i,
        {
            let ghost e = es[i as int];
            let ghost first = es.take(i as int);
            let ghost now = self.log();
            let ghost listings = self.texts();
            proof {
                assert(es.take(i + 1).drop_last() =~= first);
                assert(es.take(i + 1).last() == e);
                assert(compilable(e));
            }
            let mut skipped = true;
            match &sexprs[i] {
                SExpr::FuncDef { name, ret_type, args, expr, .. } => {
                    if !(Self::any_arg_generic(args) || ret_type.has_generic()) {
                        skipped = false;
                        match self.translate_definition(name, args, ret_type, expr) {
                            Ok(()) => {
                                proof {
                                    let d = definition(e)->0;
                                    let x = choose|x: Answers| #[trigger]
                                        made(
                                            d,
                                            x,
                                            now,
                                            self.log(),
                                            listings,
                                            self.texts(),
                                            convention,
                                        );
                                    let b = a.push(x);
                                    assert(b.drop_last() =~= a);
                                    assert(self.texts() =~= read + listed(
                                        es.take(i + 1),
                                        b,
                                        log,
                                        convention,
                                    ));
                                    lemma_one_built(es, i as int, a, x, log, convention);
                                    a = b;
                                }
                            },
                            Err(f) => {
                                proof {
                                    let d = definition(e)->0;
                                    let stop = choose|stop: Stop| #[trigger]
                                        unmade(
                                            d,
                                            stop,
                                            now,
                                            self.log(),
                                            listings,
                                            self.texts(),
                                            target,
                                            f,
                                        );
                                    assert(partly_made(
                                        es,
                                        a,
                                        stop,
                                        log,
                                        self.log(),
                                        read,
                                        self.texts(),
                                        target,
                                        f,
                                    ));
                                }
                                return Err(Error::Module(f));
                            },
                        }
                    }
                },
                _ => {},
            }
            proof {
                if skipped {
                    let x = Answers { given: seq![], id: 0 };
                    assert(a.push(x).drop_last() =~= a);
                    lemma_one_built(es, i as int, a, x, log, convention);
                    a = a.push(x);
                }
            }
            i += 1;
        }
        proof {
            assert(es.take(i as int) =~= es);
            if log == Log::empty() {
                law_exports_are_exact(es, a, self.log(), read, self.texts(), convention);
            }
        }
        Ok(())
    }

    /// Makes code for the definitions among some expressions, in order, up to the
    /// first one that is refused.
    pub fn compile(&mut self, sexprs: Vec<SExpr<'_>>) -> (r: Result<(), Error>)
        requires
            old(self).inv(),
            forall|i: int| 0 <= i < sexprs@.len() ==> compilable(#[trigger] sexprs@[i]),
        ensures
            final(self).inv(),
            final(self).target() == old(self).target(),
            final(self).context() == blank(final(self).convention()),
            r is Ok && old(self).log() == Log::empty() ==> exports_exactly(
                final(self).log(),
                sexprs@,
            ),
            match r {
                Ok(()) => exists|a: Seq<Answers>| #[trigger]
                    all_made(
                        sexprs@,
                        a,
                        old(self).log(),
                        final(self).log(),
                        old(self).texts(),
                        final(self).texts(),
                        old(self).convention(),
                    ),
                Err(Error::Module(e)) => exists|a: Seq<Answers>, stop: Stop| #[trigger]
                    partly_made(
                        sexprs@,
                        a,
                        stop,
                        old(self).log(),
                        final(self).log(),
                        old(self).texts(),
                        final(self).texts(),
                        old(self).target(),
                        e,
                    ),
                Err(_) => false,
            },
    {
        self.translate(sexprs.as_slice())
    }

    /// How the functions read that were built since this was last asked, in the
    /// order in which they were built.
    pub fn take_listings(&mut self) -> (r: Vec<String>)
        ensures
            texts(r@) == old(self).texts(),
            final(self).texts() == Seq::<Seq<char>>::empty(),
            final(self).log() == old(self).log(),
            final(self).target() == old(self).target(),
            old(self).inv() ==> final(self).inv(),
    {
        let mut taken: Vec<String> = Vec::new();
        std::mem::swap(&mut taken, &mut self.listings);
        assert(self.texts() =~= Seq::<Seq<char>>::empty());
        taken
    }

    /// The object file with all that was declared and defined.
    pub fn emit_object(self) -> (r: Result<Vec<u8>, Error>)
        ensures
            match r {
                Ok(bytes) => object_file(self.target(), self.log()) == Some(bytes@),
                Err(e) => e == Error::Emit && object_file(self.target(), self.log()) is None,
            },
    {
        let product = finish(self.module);
        match emit_product(product) {
            Some(bytes) => Ok(bytes),
            None => Err(Error::Emit),
        }
    }
}

/// What was declared and defined in a generator goes together: a name has one
/// number, a function one signature and at most one definition, and no name is
/// that of a function and of data.
pub proof fn law_module_is_orderly(g: &Generator)
    requires
        g.inv(),
    ensures
        orderly(g.log()),
{
}

/// Between two functions nothing is in the works: the context holds a function
/// that takes and returns nothing and has no code, with the convention of the
/// machine.
pub proof fn law_context_is_blank(g: &Generator)
    requires
        g.inv(),
    ensures
        g.context() == blank(g.convention()),
{
}

/// Every request of a generator was granted just where nothing spoke against it:
/// code is refused only where it does not compile or its symbol is taken, and it
/// is then refused always.
pub proof fn law_answers_are_right(g: &Generator)
    requires
        g.inv(),
    ensures
        all_rightly(g.target(), g.log()),
{
}

/// One more expression was built.
proof fn lemma_one_built(
    es: Seq<SExpr<'_>>,
    i: int,
    a: Seq<Answers>,
    x: Answers,
    log: Log,
    convention: Convention,
)
    requires
        0 <= i < es.len(),
        all_built(es.take(i), a, log, convention),
        definition(es[i]) matches Some(d) ==> built_to_end(
            d,
            x.given,
            compiled(es.take(i), a, log, convention),
        ),
    ensures
        all_built(es.take(i + 1), a.push(x), log, convention),
{
    let (now, b) = (es.take(i + 1), a.push(x));
    assert forall|j: int| 0 <= j < now.len() implies (definition(#[trigger] now[j]) matches Some(
        d,
    ) ==> built_to_end(d, b[j].given, compiled(now.take(j), b.take(j), log, convention))) by {
        assert(now.take(j) =~= es.take(j));
        if j < i {
            assert(es.take(i)[j] == now[j]);
            assert(es.take(i).take(j) =~= es.take(j));
            assert(b.take(j) =~= a.take(j));
        } else {
            assert(b.take(j) =~= a);
        }
    }
}

} // verus!
