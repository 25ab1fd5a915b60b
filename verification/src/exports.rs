//! What an object file defines, and what it leaves to others.

use vstd::prelude::*;

use crate::answers::{all_rightly, rightly};
use crate::ast::{SExpr, Type};
use crate::clif_module::Target;
use crate::function::arg_types;
use crate::generator::{all_made, compiled, definition, Answers, Definition};
use crate::laws::{law_definitions_are_exported, law_symbols_are_defined_once};
use crate::lower::{ir, lower_call};
use crate::module_log::{
    agrees, claims_function, defines_function, function_refusal, has_other_signature, is_data_name,
    names_data, names_function, orderly, Entry, Log, Visibility,
};
use crate::renaming::{call_signature, request, requests};
use crate::step::{Action, Convention};

verus! {

/// Whether a request leaves functions to others: it neither gives one its code,
/// nor says of one that it is defined here.
pub open spec fn leaves_functions(e: Entry) -> bool {
    match e {
        Entry::DeclareFunction { visibility, .. } => visibility == Visibility::Import,
        Entry::DefineFunction { .. } => false,
        _ => true,
    }
}

/// The body of a function leaves functions to others: those that it calls are
/// declared as defined elsewhere.
pub proof fn law_bodies_leave_functions(acts: Seq<Action>, m: Seq<int>)
    ensures
        forall|k: int|
            0 <= k < requests(acts, m).len() ==> leaves_functions(#[trigger] requests(acts, m)[k]),
    decreases acts.len(),
{
    if acts.len() > 0 {
        law_bodies_leave_functions(acts.drop_last(), m.drop_last());
        let (all, before) = (requests(acts, m), requests(acts.drop_last(), m.drop_last()));
        assert forall|k: int| 0 <= k < all.len() implies leaves_functions(#[trigger] all[k]) by {
            if k < before.len() {
                assert(all[k] == before[k]);
            }
        }
    }
}

/// Whether one of some expressions is a definition that code is made for, under
/// a symbol.
pub open spec fn defines_symbol(es: Seq<SExpr<'_>>, name: Seq<char>) -> bool {
    exists|i: int|
        0 <= i < es.len() && (definition(#[trigger] es[i]) matches Some(d) && d.symbol() == name)
}

/// Whether one request named a function and another gave it its code.
pub open spec fn gives_code(declared: Entry, defined: Entry, name: Seq<char>) -> bool {
    declared matches Entry::DeclareFunction { name: n, id: Some(id), .. } && n == name
        && defines_function(defined, id)
}

/// Whether a symbol has code.
pub open spec fn has_code(log: Log, name: Seq<char>) -> bool {
    exists|i: int, j: int|
        0 <= i < log.len() && 0 <= j < log.len() && gives_code(
            #[trigger] log[i],
            #[trigger] log[j],
            name,
        )
}

/// Whether a symbol was said to be defined here.
pub open spec fn is_exported(log: Log, name: Seq<char>) -> bool {
    exists|i: int| 0 <= i < log.len() && claims_function(#[trigger] log[i], name)
}

/// What is said of a function here is said of a definition: it was just declared,
/// or it was declared and is given its code.
proof fn lemma_said_of_definition(
    es: Seq<SExpr<'_>>,
    a: Seq<Answers>,
    log: Log,
    convention: Convention,
    k: int,
) -> (i: int)
    requires
        a.len() == es.len(),
        log.len() <= k < compiled(es, a, log, convention).len(),
        !leaves_functions(compiled(es, a, log, convention)[k]),
    ensures
        0 <= i < es.len(),
        definition(es[i]) is Some,
        ({
            let all = compiled(es, a, log, convention);
            let d = definition(es[i])->0;
            ||| all[k] == d.declaration(convention, Some(a[i].id))
            ||| k > 0 && all[k - 1] == d.declaration(convention, Some(a[i].id))
                && all[k] is DefineFunction && all[k]->DefineFunction_id == a[i].id
        }),
    decreases es.len(),
{
    let all = compiled(es, a, log, convention);
    let before = compiled(es.drop_last(), a.drop_last(), log, convention);
    if k < before.len() {
        assert(all[k] == before[k]) by {
            assert(all.len() >= before.len());
        }
        let i = lemma_said_of_definition(es.drop_last(), a.drop_last(), log, convention, k);
        if k > 0 {
            assert(all[k - 1] == before[k - 1]);
        }
        i
    } else {
        let d = definition(es.last())->0;
        let given = a.last().given;
        law_bodies_leave_functions(d.plan(), given);
        let asked = requests(d.plan(), given);
        if k < before.len() + asked.len() {
            assert(all[k] == asked[k - before.len()]);
        }
        es.len() - 1
    }
}

/// A definition gives its symbol code, and lets others see it.
proof fn lemma_definition_has_code(
    es: Seq<SExpr<'_>>,
    a: Seq<Answers>,
    convention: Convention,
    name: Seq<char>,
)
    requires
        a.len() == es.len(),
        defines_symbol(es, name),
    ensures
        has_code(compiled(es, a, Log::empty(), convention), name),
        is_exported(compiled(es, a, Log::empty(), convention), name),
{
    let after = compiled(es, a, Log::empty(), convention);
    let i = choose|i: int|
        0 <= i < es.len() && (definition(#[trigger] es[i]) matches Some(d) && d.symbol() == name);
    let k = law_definitions_are_exported(es, a, Log::empty(), convention, i);
    assert(gives_code(after[k], after[k + 1], name));
    assert(claims_function(after[k], name));
}

/// What others can see is a definition.
proof fn lemma_exported_is_definition(
    es: Seq<SExpr<'_>>,
    a: Seq<Answers>,
    convention: Convention,
    name: Seq<char>,
)
    requires
        a.len() == es.len(),
        is_exported(compiled(es, a, Log::empty(), convention), name),
    ensures
        defines_symbol(es, name),
{
    let after = compiled(es, a, Log::empty(), convention);
    let k = choose|k: int| 0 <= k < after.len() && claims_function(#[trigger] after[k], name);
    let i = lemma_said_of_definition(es, a, Log::empty(), convention, k);
    assert((definition(es[i])->0).symbol() == name);
}

/// What has code is a definition.
proof fn lemma_code_is_definition(
    es: Seq<SExpr<'_>>,
    a: Seq<Answers>,
    convention: Convention,
    name: Seq<char>,
)
    requires
        a.len() == es.len(),
        orderly(compiled(es, a, Log::empty(), convention)),
        has_code(compiled(es, a, Log::empty(), convention), name),
    ensures
        defines_symbol(es, name),
{
    let after = compiled(es, a, Log::empty(), convention);
    let (j, k) = choose|j: int, k: int|
        0 <= j < after.len() && 0 <= k < after.len() && gives_code(
            #[trigger] after[j],
            #[trigger] after[k],
            name,
        );
    let i = lemma_said_of_definition(es, a, Log::empty(), convention, k);
    if j < k - 1 {
        assert(agrees(after[j], after[k - 1]));
    } else if k - 1 < j {
        assert(agrees(after[k - 1], after[j]));
    }
    assert((definition(es[i])->0).symbol() == name);
}

/// The symbols with code in an object file are those of the definitions that
/// were compiled, and no others: whatever else is called stays an import. They
/// are also the symbols that others can see.
pub proof fn law_definitions_alone_have_code(
    es: Seq<SExpr<'_>>,
    a: Seq<Answers>,
    after: Log,
    read: Seq<Seq<char>>,
    read_after: Seq<Seq<char>>,
    convention: Convention,
    name: Seq<char>,
)
    requires
        all_made(es, a, Log::empty(), after, read, read_after, convention),
        orderly(after),
    ensures
        has_code(after, name) <==> defines_symbol(es, name),
        is_exported(after, name) <==> defines_symbol(es, name),
{
    let named = defines_symbol(es, name);
    if named {
        lemma_definition_has_code(es, a, convention, name);
    } else if is_exported(after, name) {
        lemma_exported_is_definition(es, a, convention, name);
    } else if has_code(after, name) {
        lemma_code_is_definition(es, a, convention, name);
    }
}

/// What is defined does not depend on the order.
proof fn lemma_same_definitions(es: Seq<SExpr<'_>>, fs: Seq<SExpr<'_>>, name: Seq<char>)
    requires
        forall|e: SExpr<'_>| #[trigger] es.contains(e) ==> fs.contains(e),
        defines_symbol(es, name),
    ensures
        defines_symbol(fs, name),
{
    let i = choose|i: int|
        0 <= i < es.len() && (definition(#[trigger] es[i]) matches Some(d) && d.symbol() == name);
    assert(es.contains(es[i]));
    let j = choose|j: int| 0 <= j < fs.len() && #[trigger] fs[j] == es[i];
    assert(definition(fs[j]) is Some);
}

/// Whether what is defined in a module, for everyone, is what some expressions
/// define, each symbol once.
pub open spec fn exports_exactly(log: Log, es: Seq<SExpr<'_>>) -> bool {
    &&& forall|name: Seq<char>| #[trigger] has_code(log, name) <==> defines_symbol(es, name)
    &&& forall|name: Seq<char>| #[trigger] is_exported(log, name) <==> defines_symbol(es, name)
    &&& forall|i: int, j: int|
        0 <= i < j < es.len() && definition(#[trigger] es[i]) is Some && definition(
            #[trigger] es[j],
        ) is Some ==> (definition(es[i])->0).symbol() != (definition(es[j])->0).symbol()
}

/// What is compiled first in a module is all that is defined there.
pub proof fn law_exports_are_exact(
    es: Seq<SExpr<'_>>,
    a: Seq<Answers>,
    after: Log,
    read: Seq<Seq<char>>,
    read_after: Seq<Seq<char>>,
    convention: Convention,
)
    requires
        all_made(es, a, Log::empty(), after, read, read_after, convention),
        orderly(after),
    ensures
        exports_exactly(after, es),
{
    assert forall|name: Seq<char>| #[trigger] has_code(after, name) <==> defines_symbol(
        es,
        name,
    ) by {
        law_definitions_alone_have_code(es, a, after, read, read_after, convention, name);
    }
    assert forall|name: Seq<char>| #[trigger] is_exported(after, name) <==> defines_symbol(
        es,
        name,
    ) by {
        law_definitions_alone_have_code(es, a, after, read, read_after, convention, name);
    }
    lemma_each_once(es, a, convention);
}

proof fn lemma_each_once(es: Seq<SExpr<'_>>, a: Seq<Answers>, convention: Convention)
    requires
        a.len() == es.len(),
        orderly(compiled(es, a, Log::empty(), convention)),
    ensures
        forall|i: int, j: int|
            0 <= i < j < es.len() && definition(#[trigger] es[i]) is Some && definition(
                #[trigger] es[j],
            ) is Some ==> (definition(es[i])->0).symbol() != (definition(es[j])->0).symbol(),
{
    assert forall|i: int, j: int|
        0 <= i < j < es.len() && definition(#[trigger] es[i]) is Some && definition(
            #[trigger] es[j],
        ) is Some implies (definition(es[i])->0).symbol() != (definition(es[j])->0).symbol() by {
        law_symbols_are_defined_once(es, a, Log::empty(), convention, i, j);
    }
}

/// The order of definitions does not tell in what an object file holds: where
/// the same expressions are compiled in two orders, the same symbols have code,
/// and the same ones can be seen by others.
pub proof fn law_order_keeps_symbols(
    es: Seq<SExpr<'_>>,
    a: Seq<Answers>,
    after: Log,
    read_after: Seq<Seq<char>>,
    fs: Seq<SExpr<'_>>,
    b: Seq<Answers>,
    other: Log,
    read_other: Seq<Seq<char>>,
    read: Seq<Seq<char>>,
    convention: Convention,
    name: Seq<char>,
)
    requires
        forall|e: SExpr<'_>| #[trigger] es.contains(e) <==> fs.contains(e),
        all_made(es, a, Log::empty(), after, read, read_after, convention),
        all_made(fs, b, Log::empty(), other, read, read_other, convention),
        orderly(after),
        orderly(other),
    ensures
        has_code(after, name) <==> has_code(other, name),
        is_exported(after, name) <==> is_exported(other, name),
{
    law_definitions_alone_have_code(es, a, after, read, read_after, convention, name);
    law_definitions_alone_have_code(fs, b, other, read, read_other, convention, name);
    if defines_symbol(es, name) {
        lemma_same_definitions(es, fs, name);
    }
    if defines_symbol(fs, name) {
        assert forall|e: SExpr<'_>| #[trigger] fs.contains(e) implies es.contains(e) by {
            assert(es.contains(e) <==> fs.contains(e));
        }
        lemma_same_definitions(fs, es, name);
    }
}

/// A function can be called before it is defined: where a call of it was
/// granted, its definition asks for the same symbol with the same signature, and
/// is not refused.
pub proof fn law_definitions_meet_calls(
    d: Definition<'_>,
    log: Log,
    k: int,
    id: int,
    acts: Seq<Action>,
    args: Seq<int>,
    t: Type<'_>,
    m: Seq<int>,
    target: Target,
)
    requires
        orderly(log),
        all_rightly(target, log),
        0 <= k < log.len(),
        t is Function,
        t->Function_0@ == arg_types(d.args),
        *t->Function_1 == d.ret,
        log[k] == request(
            lower_call(t, d.name, None, acts, args).acts[acts.len() as int],
            m,
            Some(id),
        ),
    ensures
        function_refusal(log, d.symbol(), d.signature(Convention::SystemV)) is None,
{
    let s = d.signature(Convention::SystemV);
    let a = lower_call(t, d.name, None, acts, args).acts[acts.len() as int];
    assert(a == Action::DeclareFunction(d.symbol(), s.params, ir(d.ret)));
    assert(call_signature(s.params, ir(d.ret)) == s);
    assert(rightly(target, log.take(k), log[k]));
    if is_data_name(log, d.symbol()) {
        let i = choose|i: int| 0 <= i < log.len() && names_data(#[trigger] log[i], d.symbol());
        if i < k {
            assert(agrees(log[i], log[k]));
        } else {
            assert(agrees(log[k], log[i]));
        }
    }
    if has_other_signature(log, d.symbol(), s) {
        let i = choose|i: int|
            0 <= i < log.len() && names_function(#[trigger] log[i], d.symbol())
                && log[i]->signature != s;
        if i < k {
            assert(agrees(log[i], log[k]));
        } else if k < i {
            assert(agrees(log[k], log[i]));
        }
    }
}

} // verus!
