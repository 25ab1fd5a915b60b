//! What holds of the generator as a whole.

use vstd::prelude::*;

use crate::answers::{all_rightly, rightly};
use crate::ast::{SExpr, Type};
use crate::clif_module::Target;
use crate::function::arg_types;
use crate::generator::{compiled, definition, listed, Answers, Definition};
use crate::ir::{ir_type, ir_types, IrType};
use crate::lower::{
    attribute_offset, bytes_of, ir, lower_builtin, lower_call, lower_text, size, Builtin,
    SLICE_BYTES,
};
use crate::mangle::{alike, all_alike, has_symbol, law_symbols_are_distinct, symbol};
use crate::module_log::{
    agrees, function_refusal, has_other_signature, is_data_name, names_data, names_function,
    orderly, Entry, Log,
};
use crate::renaming::{call_signature, request};
use crate::step::{Action, BinaryOp, Convention, IntCond};

verus! {

/// To make code for some expressions and then for others is to make it for all
/// of them at once.
pub proof fn law_compiling_in_parts(
    es: Seq<SExpr<'_>>,
    a: Seq<Answers>,
    fs: Seq<SExpr<'_>>,
    b: Seq<Answers>,
    log: Log,
    convention: Convention,
)
    requires
        a.len() == es.len(),
        b.len() == fs.len(),
    ensures
        compiled(es + fs, a + b, log, convention) == compiled(
            fs,
            b,
            compiled(es, a, log, convention),
            convention,
        ),
        listed(es + fs, a + b, log, convention) == listed(es, a, log, convention) + listed(
            fs,
            b,
            compiled(es, a, log, convention),
            convention,
        ),
    decreases fs.len(),
{
    if fs.len() == 0 {
        assert(es + fs =~= es);
        assert(a + b =~= a);
        assert(listed(es + fs, a + b, log, convention) =~= listed(es, a, log, convention) + listed(
            fs,
            b,
            compiled(es, a, log, convention),
            convention,
        ));
    } else {
        law_compiling_in_parts(es, a, fs.drop_last(), b.drop_last(), log, convention);
        assert((es + fs).drop_last() =~= es + fs.drop_last());
        assert((a + b).drop_last() =~= a + b.drop_last());
        assert((es + fs).last() == fs.last());
        assert((a + b).last() == b.last());
        assert(listed(es + fs, a + b, log, convention) =~= listed(es, a, log, convention) + listed(
            fs,
            b,
            compiled(es, a, log, convention),
            convention,
        ));
    }
}

/// Nothing happens for expressions that are no definitions, nor for definitions
/// with type parameters.
pub proof fn law_others_are_skipped(
    es: Seq<SExpr<'_>>,
    a: Seq<Answers>,
    log: Log,
    convention: Convention,
)
    requires
        a.len() == es.len(),
        forall|i: int| 0 <= i < es.len() ==> definition(#[trigger] es[i]) is None,
    ensures
        compiled(es, a, log, convention) == log,
        listed(es, a, log, convention) == Seq::<Seq<char>>::empty(),
    decreases es.len(),
{
    if es.len() > 0 {
        law_others_are_skipped(es.drop_last(), a.drop_last(), log, convention);
        assert(definition(es[es.len() - 1]) is None);
    }
}

/// What was asked of the module before stays as it was.
pub proof fn law_log_continues(
    es: Seq<SExpr<'_>>,
    a: Seq<Answers>,
    log: Log,
    convention: Convention,
)
    requires
        a.len() == es.len(),
    ensures
        compiled(es, a, log, convention).len() >= log.len(),
        compiled(es, a, log, convention).take(log.len() as int) == log,
    decreases es.len(),
{
    if es.len() > 0 {
        law_log_continues(es.drop_last(), a.drop_last(), log, convention);
        let before = compiled(es.drop_last(), a.drop_last(), log, convention);
        assert(compiled(es, a, log, convention).take(log.len() as int) =~= before.take(
            log.len() as int,
        ));
    } else {
        assert(log.take(log.len() as int) =~= log);
    }
}

/// Whether a definition was declared for everyone and then given its code, at a
/// place of what was asked of a module.
pub open spec fn exported_at(
    log: Log,
    k: int,
    d: Definition<'_>,
    a: Answers,
    before: Log,
    convention: Convention,
) -> bool {
    &&& 0 <= k < log.len() - 1
    &&& log[k] == d.declaration(convention, Some(a.id))
    &&& log[k + 1] == d.request(a, before, convention, true)
}

/// Every definition that code was made for is exported under its symbol, with
/// the code that it was lowered to.
pub proof fn law_definitions_are_exported(
    es: Seq<SExpr<'_>>,
    a: Seq<Answers>,
    log: Log,
    convention: Convention,
    i: int,
) -> (k: int)
    requires
        a.len() == es.len(),
        0 <= i < es.len(),
        definition(es[i]) is Some,
    ensures
        exported_at(
            compiled(es, a, log, convention),
            k,
            definition(es[i])->0,
            a[i],
            compiled(es.take(i), a.take(i), log, convention),
            convention,
        ),
        compiled(es.take(i), a.take(i), log, convention).len() <= k < compiled(
            es.take(i + 1),
            a.take(i + 1),
            log,
            convention,
        ).len() - 1,
    decreases es.len(),
{
    let all = compiled(es, a, log, convention);
    if i == es.len() - 1 {
        assert(es.take(i) =~= es.drop_last());
        assert(a.take(i) =~= a.drop_last());
        assert(es.take(i + 1) =~= es);
        assert(a.take(i + 1) =~= a);
        all.len() - 2
    } else {
        let k = law_definitions_are_exported(es.drop_last(), a.drop_last(), log, convention, i);
        assert(es.drop_last().take(i) =~= es.take(i));
        assert(a.drop_last().take(i) =~= a.take(i));
        assert(es.drop_last().take(i + 1) =~= es.take(i + 1));
        assert(a.drop_last().take(i + 1) =~= a.take(i + 1));
        let before = compiled(es.drop_last(), a.drop_last(), log, convention);
        assert(all[k] == before[k] && all[k + 1] == before[k + 1]);
        k
    }
}

/// The places of two definitions follow each other.
pub proof fn lemma_exported_in_order(
    es: Seq<SExpr<'_>>,
    a: Seq<Answers>,
    log: Log,
    convention: Convention,
    i: int,
    j: int,
)
    requires
        a.len() == es.len(),
        0 <= i <= j <= es.len(),
    ensures
        compiled(es.take(i), a.take(i), log, convention).len() <= compiled(
            es.take(j),
            a.take(j),
            log,
            convention,
        ).len(),
    decreases j - i,
{
    if i < j {
        lemma_exported_in_order(es, a, log, convention, i, j - 1);
        assert(es.take(j).drop_last() =~= es.take(j - 1));
        assert(a.take(j).drop_last() =~= a.take(j - 1));
    }
}

/// No symbol is given code twice: two definitions that code was made for have
/// two symbols.
pub proof fn law_symbols_are_defined_once(
    es: Seq<SExpr<'_>>,
    a: Seq<Answers>,
    log: Log,
    convention: Convention,
    i: int,
    j: int,
)
    requires
        a.len() == es.len(),
        orderly(compiled(es, a, log, convention)),
        0 <= i < j < es.len(),
        definition(es[i]) is Some,
        definition(es[j]) is Some,
    ensures
        (definition(es[i])->0).symbol() != (definition(es[j])->0).symbol(),
{
    let all = compiled(es, a, log, convention);
    let k = law_definitions_are_exported(es, a, log, convention, i);
    let l = law_definitions_are_exported(es, a, log, convention, j);
    lemma_exported_in_order(es, a, log, convention, i + 1, j);
    assert(agrees(all[k], all[l]));
    assert(agrees(all[k + 1], all[l + 1]));
}

proof fn lemma_alike_ir(a: Type<'_>, b: Type<'_>)
    requires
        alike(a, b),
    ensures
        ir_type(a) == ir_type(b),
{
    match (a, b) {
        (Type::Tuple(v), Type::Tuple(w)) => {
            assert(all_alike(v@, w@));
        },
        _ => {},
    }
}

proof fn lemma_all_alike_ir(a: Seq<Type<'_>>, b: Seq<Type<'_>>)
    requires
        all_alike(a, b),
    ensures
        ir_types(a) == ir_types(b),
    decreases a.len(),
{
    if a.len() > 0 {
        lemma_alike_ir(a[0], b[0]);
        lemma_all_alike_ir(a.drop_first(), b.drop_first());
        let (x, y) = (ir_types(a.drop_first()), ir_types(b.drop_first()));
        assert(a.len() == b.len()) by {
            assert(x.len() == y.len());
        }
        assert forall|i: int| 0 <= i < a.len() implies ir_type(#[trigger] a[i]) == ir_type(b[i]) by {
            if i > 0 {
                assert(a.drop_first()[i - 1] == a[i]);
                assert(b.drop_first()[i - 1] == b[i]);
                lemma_at(a.drop_first(), b.drop_first(), i - 1);
            }
        }
    }
    assert(ir_types(a) =~= ir_types(b));
}

proof fn lemma_at(a: Seq<Type<'_>>, b: Seq<Type<'_>>, i: int)
    requires
        all_alike(a, b),
        0 <= i < a.len(),
    ensures
        i < b.len(),
        ir_type(a[i]) == ir_type(b[i]),
    decreases a.len(),
{
    if i == 0 {
        lemma_alike_ir(a[0], b[0]);
    } else {
        lemma_at(a.drop_first(), b.drop_first(), i - 1);
    }
}

/// Functions that share a symbol are called alike, `main` aside: the symbol
/// tells what they take and return.
pub proof fn law_symbol_tells_signature(c: Definition<'_>, d: Definition<'_>, convention: Convention)
    requires
        has_symbol(c.name, arg_types(c.args), c.ret),
        has_symbol(d.name, arg_types(d.args), d.ret),
        c.symbol() == d.symbol(),
        c.name != "main"@,
    ensures
        c.signature(convention) == d.signature(convention),
{
    let (a, b) = (arg_types(c.args), arg_types(d.args));
    law_symbols_are_distinct(c.name, a, c.ret, d.name, b, d.ret);
    lemma_all_alike_ir(a, b);
    lemma_alike_ir(c.ret, d.ret);
}

/// A definition can be called where it is known by its name and its type: the
/// call asks for the symbol that the definition is exported under, and is not
/// refused.
pub proof fn law_calls_meet_definitions(
    d: Definition<'_>,
    log: Log,
    k: int,
    id: int,
    acts: Seq<Action>,
    args: Seq<int>,
    t: Type<'_>,
    m: Seq<int>,
    target: Target,
)
    requires
        orderly(log),
        all_rightly(target, log),
        0 <= k < log.len(),
        log[k] == d.declaration(Convention::SystemV, Some(id)),
        t is Function,
        t->Function_0@ == arg_types(d.args),
        *t->Function_1 == d.ret,
    ensures
        ({
            let a = lower_call(t, d.name, None, acts, args).acts[acts.len() as int];
            &&& request(a, m, Some(id)) matches Entry::DeclareFunction { name, signature, .. }
                && name == d.symbol() && signature == d.signature(Convention::SystemV)
                && function_refusal(log, name, signature) is None
        }),
{
    let s = d.signature(Convention::SystemV);
    let a = lower_call(t, d.name, None, acts, args).acts[acts.len() as int];
    assert(a == Action::DeclareFunction(d.symbol(), s.params, ir(d.ret)));
    assert(call_signature(s.params, ir(d.ret)) == s);
    assert(rightly(target, log.take(k), log[k]));
    if is_data_name(log, d.symbol()) {
        let i = choose|i: int| 0 <= i < log.len() && names_data(#[trigger] log[i], d.symbol());
        if i < k {
            assert(agrees(log[i], log[k]));
        } else {
            assert(agrees(log[k], log[i]));
        }
    }
    if has_other_signature(log, d.symbol(), s) {
        let i = choose|i: int|
            0 <= i < log.len() && names_function(#[trigger] log[i], d.symbol())
                && log[i]->signature != s;
        if i < k {
            assert(agrees(log[i], log[k]));
        } else if k < i {
            assert(agrees(log[k], log[i]));
        }
    }
}

/// Whether a slice is made of two values in a stack slot: each is stored where
/// the attribute of its name is loaded from.
pub open spec fn stores_slice(acts: Seq<Action>, slot: int, len: int, ptr: int) -> bool {
    &&& exists|i: int|
        0 <= i < acts.len() && #[trigger] acts[i] == Action::StackStore(
            len,
            slot,
            attribute_offset("len"@)->0,
        )
    &&& exists|i: int|
        0 <= i < acts.len() && #[trigger] acts[i] == Action::StackStore(
            ptr,
            slot,
            attribute_offset("ptr"@)->0,
        )
}

/// A text is a slice: its attributes are the number of its bytes, and the
/// address of a data object that holds them.
pub proof fn law_text_is_slice(t: IrType, text: Seq<char>, number: int, acts: Seq<Action>)
    ensures
        ({
            let r = lower_text(t, text, number, acts);
            let n = acts.len() as int;
            &&& r.acts[n + 1] == Action::DefineData(n, bytes_of(text))
            &&& r.acts[n + 2] == Action::ImportData(n)
            &&& r.acts[n + 3] == Action::Iconst(IrType::I64, bytes_of(text).len() as i64)
            &&& r.acts[n + 4] == Action::GlobalValue(t, n + 2)
            &&& r.acts[n + 5] == Action::CreateStackSlot(16)
            &&& stores_slice(r.acts, n + 5, n + 3, n + 4)
            &&& r.acts[r.value] == Action::StackAddr(t, n + 5, 0)
        }),
{
    reveal_strlit("len");
    reveal_strlit("cap");
    reveal_strlit("ptr");
    let r = lower_text(t, text, number, acts);
    let n = acts.len() as int;
    assert("len"@[0] == 'l' && "ptr"@[0] == 'p' && "cap"@[0] == 'c');
    assert(r.acts[n + 6] == Action::StackStore(n + 3, n + 5, 0));
    assert(r.acts[n + 7] == Action::StackStore(n + 4, n + 5, 8));
}

/// A slice that is reserved on the stack has the length that was asked for, and
/// the address of a slot that is wide enough for it: where it is not, the program
/// stops.
pub proof fn law_reserved_slice_is_slice(
    t: Type<'_>,
    arg: Type<'_>,
    acts: Seq<Action>,
    args: Seq<int>,
)
    requires
        t is Slice,
    ensures
        ({
            let r = lower_builtin(Builtin::Alloca, t, arg, acts, args);
            let n = acts.len() as int;
            &&& r.acts[n] == Action::ImulImm(args[0], size(*t->Slice_1))
            &&& r.acts[n + 1] == Action::CompareIntImm(
                IntCond::UnsignedLessThanOrEqual,
                n,
                SLICE_BYTES as i64,
            )
            &&& r.acts[n + 2] == Action::TrapzStackOverflow(n + 1)
            &&& r.acts[n + 3] == Action::CreateStackSlot(SLICE_BYTES)
            &&& r.acts[n + 4] == Action::StackAddr(ir(t), n + 3, 0)
            &&& r.acts[n + 5] == Action::CreateStackSlot(16)
            &&& stores_slice(r.acts, n + 5, args[0], n + 4)
            &&& r.acts[r.value] == Action::StackAddr(ir(t), n + 5, 0)
        }),
{
    reveal_strlit("len");
    reveal_strlit("cap");
    reveal_strlit("ptr");
    let r = lower_builtin(Builtin::Alloca, t, arg, acts, args);
    let n = acts.len() as int;
    assert("len"@[0] == 'l' && "ptr"@[0] == 'p' && "cap"@[0] == 'c');
    assert(r.acts[n + 6] == Action::StackStore(args[0], n + 5, 0));
    assert(r.acts[n + 7] == Action::StackStore(n + 4, n + 5, 8));
}

/// An element of a slice is loaded from the slice's own address, as many element
/// sizes on as its index says.
pub proof fn law_get_goes_by_address(t: Type<'_>, arg: Type<'_>, acts: Seq<Action>, args: Seq<int>)
    ensures
        ({
            let r = lower_builtin(Builtin::Get, t, arg, acts, args);
            let n = acts.len() as int;
            &&& r.acts[n] == Action::Load(IrType::I64, args[0], attribute_offset("ptr"@)->0)
            &&& r.acts[n + 1] == Action::ImulImm(args[1], size(t))
            &&& r.acts[n + 2] == Action::Binary(BinaryOp::Iadd, n, n + 1)
            &&& r.acts[r.value] == Action::Load(ir(t), n + 2, 0)
        }),
{
    reveal_strlit("len");
    reveal_strlit("cap");
    reveal_strlit("ptr");
    assert("len"@[0] == 'l' && "ptr"@[0] == 'p' && "cap"@[0] == 'c');
}

} // verus!
