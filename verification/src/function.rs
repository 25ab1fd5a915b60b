//! Whole functions: how a definition is planned.

use vstd::prelude::*;

use crate::ast::{SExpr, Type};
use crate::env::{variable_limit, variables, Env, EnvView};
use crate::generator::Generator;
use crate::ir::{all_ir, ir_type, ir_types, IrType};
use crate::lower::{ir, lower};
use crate::mangle::has_symbol;
use crate::size::{fits, plan_size};
use crate::step::{actions, Action, Step};
use crate::translatable::{
    lemma_bind, lemma_declare, sound, translatable,
};
use crate::translate::add_step;

verus! {

/// The types of some parameters.
pub open spec fn arg_types<'a>(args: Seq<(&'a str, Type<'a>)>) -> Seq<Type<'a>> {
    Seq::new(args.len(), |i: int| args[i].1)
}

/// The variables that a function starts with: its parameters, in order. `lone`
/// says whether it keeps to one block.
pub open spec fn start_env(args: Seq<(&str, Type<'_>)>, lone: bool) -> EnvView
    decreases args.len(),
{
    if args.len() == 0 {
        EnvView { scopes: seq![Map::empty()], types: seq![], lone }
    } else {
        let before = start_env(args.drop_last(), lone);
        before.declare(ir(args.last().1)).bind(args.last().0@, before.next())
    }
}

/// What a function starts with: its first block takes the parameters, and each
/// of them becomes a variable.
pub open spec fn start(args: Seq<(&str, Type<'_>)>, params: Seq<IrType>, ret: IrType) -> Seq<Action>
    decreases args.len(),
{
    if args.len() == 0 {
        seq![
            Action::Begin(params, ret),
            Action::CreateBlock,
            Action::AppendFunctionParams(1),
            Action::SwitchToBlock(1),
        ]
    } else {
        let before = start(args.drop_last(), params, ret);
        let i = args.len() - 1;
        before.push(Action::DeclareVar(i, ir(args.last().1))).push(Action::BlockParam(1, i)).push(
            Action::DefVar(i, before.len() as int + 1),
        )
    }
}

/// Whether a function has a translation that keeps to one block.
pub open spec fn keeps_to_one_block(args: Seq<(&str, Type<'_>)>, expr: SExpr<'_>) -> bool {
    translatable(expr, start_env(args, true), false)
}

/// The variables that a function with some body starts with.
pub open spec fn body_env(args: Seq<(&str, Type<'_>)>, expr: SExpr<'_>) -> EnvView {
    start_env(args, keeps_to_one_block(args, expr))
}

/// What a function is lowered to: after its start it returns the value of its body.
pub open spec fn lower_function(
    args: Seq<(&str, Type<'_>)>,
    ret: Type<'_>,
    expr: SExpr<'_>,
) -> Seq<Action> {
    let body = lower(
        expr,
        start(args, ir_types(arg_types(args)), ir(ret)),
        body_env(args, expr),
        None,
    );
    body.acts.push(Action::Return(body.value)).push(Action::SealAllBlocks).push(Action::Finalize)
}

/// Whether a function has a translation.
pub open spec fn function_translatable(
    name: Seq<char>,
    args: Seq<(&str, Type<'_>)>,
    ret: Type<'_>,
    expr: SExpr<'_>,
) -> bool {
    &&& args.len() <= variable_limit()
    &&& all_ir(arg_types(args))
    &&& ir_type(ret) is Some
    &&& has_symbol(name, arg_types(args), ret)
    &&& translatable(expr, body_env(args, expr), false)
    &&& fits(plan_size(lower_function(args, ret, expr)))
}

/// The parameters of a function are variables that its body can use.
pub proof fn lemma_start_env(args: Seq<(&str, Type<'_>)>, lone: bool)
    ensures
        sound(start_env(args, lone)),
        start_env(args, lone).types.len() == args.len(),
        variables(start_env(args, lone).types) == args.len(),
        start_env(args, lone).lone == lone,
    decreases args.len(),
{
    if args.len() > 0 {
        let before = start_env(args.drop_last(), lone);
        let t = ir(args.last().1);
        lemma_start_env(args.drop_last(), lone);
        lemma_declare(before, t);
        assert(before.declare(t).types.drop_last() =~= before.types);
        lemma_bind(before.declare(t), args.last().0@, before.next());
    } else {
        assert(start_env(args, lone).scopes.len() == 1);
    }
}

impl Generator {
    /// Plans a function: the steps that build it, in order.
    pub fn translate_function<'a>(
        args: &Vec<(&'a str, Type<'a>)>,
        ret_type: &Type<'a>,
        expr: &SExpr<'a>,
    ) -> (steps: Vec<Step>)
        requires
            args@.len() <= variable_limit(),
            all_ir(arg_types(args@)),
            ir_type(*ret_type) is Some,
            translatable(*expr, body_env(args@, *expr), false),
        ensures
            actions(steps@) == lower_function(args@, *ret_type, *expr),
    {
        let ghost types = arg_types(args@);
        let mut params: Vec<IrType> = Vec::new();
        let mut i: usize = 0;
        while i < args.len()
            invariant
                i <= args.len(),
                types == arg_types(args@),
                all_ir(types),
                params@.len() == i,
                forall|j: int| 0 <= j < i ==> params@[j] == ir_types(types)[j],
            decreases args.len() - i,
        {
            assert(types[i as int] == args@[i as int].1);
            params.push(Self::convert_type_to_type(&args[i].1));
            i += 1;
        }
        assert(params@ =~= ir_types(types));
        let ghost params0 = params@;
        let ret = Self::convert_type_to_type(ret_type);
        let mut steps: Vec<Step> = Vec::new();
        assert(actions(steps@) =~= seq![]);
        add_step(&mut steps, Step::Begin(params, ret));
        let entry = add_step(&mut steps, Step::CreateBlock);
        add_step(&mut steps, Step::AppendFunctionParams(entry));
        add_step(&mut steps, Step::SwitchToBlock(entry));
        let ghost lone = keeps_to_one_block(args@, *expr);
        let mut env: Env<'a> = Env::new(Ghost(lone));
        let mut i: usize = 0;
        assert(actions(steps@) =~= start(args@.take(0), params0, ret));
        while i < args.len()
            invariant
                i <= args.len(),
                entry == 1,
                types == arg_types(args@),
                all_ir(types),
                env@ == start_env(args@.take(i as int), lone),
                actions(steps@) == start(args@.take(i as int), params0, ret),
            decreases args.len() - i,
        {
            proof {
                assert(types[i as int] == args@[i as int].1);
                assert(args@.take(i + 1).drop_last() =~= args@.take(i as int));
                assert(args@.take(i + 1).last() == args@[i as int]);
                lemma_start_env(args@.take(i as int), lone);
            }
            let ty = Self::convert_type_to_type(&args[i].1);
            let var = env.declare(ty);
            env.bind(args[i].0, var);
            add_step(&mut steps, Step::DeclareVar(var, ty));
            let param = add_step(&mut steps, Step::BlockParam(entry, i));
            add_step(&mut steps, Step::DefVar(var, param));
            i += 1;
        }
        proof {
            assert(args@.take(i as int) =~= args@);
            lemma_start_env(args@, lone);
        }
        let value = Self::translate_expr(expr, &mut steps, &mut env, None);
        add_step(&mut steps, Step::Return(value));
        add_step(&mut steps, Step::SealAllBlocks);
        add_step(&mut steps, Step::Finalize);
        steps
    }
}

} // verus!
