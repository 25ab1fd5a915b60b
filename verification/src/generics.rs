//! Which definitions code is made for.

use vstd::prelude::*;

use crate::ast::{any_generic, generic, SExpr, Type};
use crate::function::arg_types;
use crate::generator::{definition, Definition};
use crate::ir::ir_type;
use crate::module_log::{Entry, Visibility};
use crate::step::Convention;

verus! {

/// The types that a type is made of.
pub open spec fn parts<'a>(t: Type<'a>) -> Seq<Type<'a>> {
    match t {
        Type::Tuple(v) | Type::Struct(_, v) => v@,
        Type::Pointer(_, t) | Type::Slice(_, t) => seq![*t],
        Type::Function(a, r) => a@.push(*r),
        _ => seq![],
    }
}

/// What is found in a type on a way down into its parts.
pub open spec fn found<'a>(t: Type<'a>, way: Seq<int>) -> Option<Type<'a>>
    decreases way.len(),
{
    if way.len() == 0 {
        Some(t)
    } else if 0 <= way[0] < parts(t).len() {
        found(parts(t)[way[0]], way.drop_first())
    } else {
        None
    }
}

/// Whether a way leads to a type parameter.
pub open spec fn leads_to_parameter(t: Type<'_>, way: Seq<int>) -> bool {
    found(t, way) matches Some(Type::Generic(_))
}

/// Whether a type parameter is somewhere in a type, however far down.
pub open spec fn has_parameter(t: Type<'_>) -> bool {
    exists|way: Seq<int>| leads_to_parameter(t, way)
}

/// One of some types has a type parameter, whichever of them it is.
proof fn lemma_some_generic(ts: Seq<Type<'_>>, i: int)
    requires
        0 <= i < ts.len(),
        generic(ts[i]),
    ensures
        any_generic(ts),
    decreases ts.len(),
{
    if i < ts.len() - 1 {
        assert(ts.drop_last()[i] == ts[i]);
        lemma_some_generic(ts.drop_last(), i);
    }
}

proof fn lemma_which_generic(ts: Seq<Type<'_>>) -> (i: int)
    requires
        any_generic(ts),
    ensures
        0 <= i < ts.len(),
        generic(ts[i]),
    decreases ts.len(),
{
    if generic(ts.last()) {
        ts.len() - 1
    } else {
        lemma_which_generic(ts.drop_last())
    }
}

proof fn lemma_leads(t: Type<'_>, way: Seq<int>)
    requires
        leads_to_parameter(t, way),
    ensures
        generic(t),
    decreases way.len(),
{
    if way.len() > 0 {
        let part = parts(t)[way[0]];
        lemma_leads(part, way.drop_first());
        match t {
            Type::Tuple(v) | Type::Struct(_, v) => lemma_some_generic(v@, way[0]),
            Type::Function(a, r) => {
                if way[0] < a@.len() {
                    lemma_some_generic(a@, way[0]);
                }
            },
            _ => {},
        }
    }
}

proof fn lemma_further(t: Type<'_>, i: int, way: Seq<int>)
    requires
        0 <= i < parts(t).len(),
        leads_to_parameter(parts(t)[i], way),
    ensures
        leads_to_parameter(t, seq![i] + way),
{
    assert((seq![i] + way).drop_first() =~= way);
}

proof fn lemma_way(t: Type<'_>) -> (way: Seq<int>)
    requires
        generic(t),
    ensures
        leads_to_parameter(t, way),
    decreases t,
{
    match t {
        Type::Generic(_) => seq![],
        Type::Tuple(v) | Type::Struct(_, v) => {
            let i = lemma_which_generic(v@);
            let way = lemma_way(v@[i]);
            lemma_further(t, i, way);
            seq![i] + way
        },
        Type::Pointer(_, u) | Type::Slice(_, u) => {
            let way = lemma_way(*u);
            lemma_further(t, 0, way);
            seq![0int] + way
        },
        Type::Function(a, r) => {
            if any_generic(a@) {
                let i = lemma_which_generic(a@);
                let way = lemma_way(a@[i]);
                lemma_further(t, i, way);
                seq![i] + way
            } else {
                let way = lemma_way(*r);
                lemma_further(t, a@.len() as int, way);
                seq![a@.len() as int] + way
            }
        },
        _ => seq![],
    }
}

/// A type counts as generic exactly if a type parameter is somewhere in it.
pub proof fn law_generic_types_have_parameters(t: Type<'_>)
    ensures
        generic(t) <==> has_parameter(t),
{
    if generic(t) {
        let way = lemma_way(t);
    }
    if has_parameter(t) {
        lemma_leads(t, choose|way: Seq<int>| leads_to_parameter(t, way));
    }
}

/// Of several types, it is enough that one counts as generic, whichever it is.
pub proof fn law_any_generic_is_any(ts: Seq<Type<'_>>)
    ensures
        any_generic(ts) <==> exists|i: int| 0 <= i < ts.len() && has_parameter(#[trigger] ts[i]),
{
    if any_generic(ts) {
        let i = lemma_which_generic(ts);
        law_generic_types_have_parameters(ts[i]);
    }
    if exists|i: int| 0 <= i < ts.len() && has_parameter(#[trigger] ts[i]) {
        let i = choose|i: int| 0 <= i < ts.len() && has_parameter(#[trigger] ts[i]);
        law_generic_types_have_parameters(ts[i]);
        lemma_some_generic(ts, i);
    }
}

/// A definition is skipped exactly if a type parameter is somewhere in its result
/// type or in the type of one of its parameters, whichever position that has.
pub proof fn law_skipped_for_type_parameters(e: SExpr<'_>)
    requires
        e is FuncDef,
    ensures
        definition(e) is None <==> {
            ||| has_parameter(e->ret_type)
            ||| exists|i: int| 0 <= i < e->args@.len() && has_parameter(#[trigger] e->args@[i].1)
        },
{
    let args = e->args@;
    law_generic_types_have_parameters(e->ret_type);
    law_any_generic_is_any(arg_types(args));
    if exists|i: int| 0 <= i < args.len() && has_parameter(#[trigger] args[i].1) {
        let i = choose|i: int| 0 <= i < args.len() && has_parameter(#[trigger] args[i].1);
        assert(has_parameter(arg_types(args)[i]));
    }
    if exists|i: int| 0 <= i < args.len() && has_parameter(#[trigger] arg_types(args)[i]) {
        let i = choose|i: int| 0 <= i < args.len() && has_parameter(#[trigger] arg_types(args)[i]);
        assert(has_parameter(args[i].1));
    }
}

/// What is not skipped is made as it is written, and only definitions are made.
pub proof fn law_made_as_written(e: SExpr<'_>)
    requires
        definition(e) is Some,
    ensures
        e is FuncDef,
        (definition(e)->0).name == e->FuncDef_name@,
        (definition(e)->0).args == e->args@,
        (definition(e)->0).ret == e->ret_type,
        (definition(e)->0).expr == *e->expr,
{
}

/// A definition is declared for everyone, with one parameter for each of its own,
/// in order, and one result, all of the machine-level types of their types.
pub proof fn law_declared_as_written(d: Definition<'_>, convention: Convention, id: Option<int>)
    requires
        forall|i: int| 0 <= i < d.args.len() ==> ir_type(#[trigger] d.args[i].1) is Some,
        ir_type(d.ret) is Some,
    ensures
        d.declaration(convention, id) matches Entry::DeclareFunction {
            visibility,
            signature,
            id: number,
            ..
        } && visibility == Visibility::Export && number == id && signature.convention == convention
            && signature.params.len() == d.args.len() && (forall|i: int|
            0 <= i < d.args.len() ==> Some(#[trigger] signature.params[i]) == ir_type(d.args[i].1))
            && signature.returns.len() == 1 && Some(signature.returns[0]) == ir_type(d.ret),
{
    assert forall|i: int| 0 <= i < d.args.len() implies Some(
        #[trigger] d.signature(convention).params[i],
    ) == ir_type(d.args[i].1) by {
        assert(arg_types(d.args)[i] == d.args[i].1);
    }
}

} // verus!
