//! The builder takes what expressions are lowered to.

use vstd::prelude::*;

use crate::ast::{type_of, LValue, SExpr, Type};
use crate::env::{number_limit, resolve, variable_limit, variables, EnvView, Scope};
use crate::function::{
    arg_types, body_env, function_translatable, keeps_to_one_block, lemma_start_env, lower_function,
    start, start_env,
};
use crate::ir::{byte_size, ir_types, IrType};
use crate::lower::{
    assigned, binary_op, builtin, bytes_of, cond_blocks, env_after, env_after_all, env_after_arms,
    env_after_place, ir, is_float, is_signed, last, lower, lower_all, lower_arms, lower_builtin,
    lower_call, lower_function_address, lower_place, lower_text, size, syscall_params, Builtin,
    SLICE_BYTES,
};
use crate::mangle::symbol;
use crate::protocol::{accepted, declared, state, unstarted};
use crate::step::{Action, BinaryOp, IntCond};
use crate::text::decimal;
use crate::translatable::{
    all_translatable, arms_translatable, is_callable, is_function, law_scopes_are_kept,
    lemma_all_kept, lemma_arms_kept, lemma_declare, lemma_enter, lemma_resolve,
    place_translatable, sound, suits, takes, translatable, value_type,
};

verus! {

/// Whether no block has more than one parameter beside those of variables, and
/// there are not too many variables.
pub open spec fn spacious(acts: Seq<Action>) -> bool {
    &&& state(acts).variable_count <= variable_limit()
    &&& forall|b: int| #[trigger]
        state(acts).blocks.contains_key(b) ==> state(acts).param_count[b]
            <= state(acts).known_count[b] + 1
}

/// Whether the current block knows every variable that has a name, and no block
/// was ever asked for one that it did not know.
pub open spec fn familiar(acts: Seq<Action>, scopes: Seq<Scope>) -> bool {
    &&& !state(acts).missed
    &&& forall|i: int, name: Seq<char>|
        0 <= i < scopes.len() && #[trigger] scopes[i].contains_key(name) ==> knows(
            acts,
            scopes[i][name],
        )
}

/// Whether the current block knows a variable.
pub open spec fn knows(acts: Seq<Action>, v: int) -> bool {
    state(acts).known.contains_key((state(acts).current->0, v))
}

/// Whether variables can be used.
pub open spec fn at_ease(acts: Seq<Action>, env: EnvView) -> bool {
    if env.lone {
        familiar(acts, env.scopes)
    } else {
        spacious(acts)
    }
}

/// Whether the next instruction can be added after some actions: the variables
/// are those of `env` and can be used, and the end of the loop is there.
pub open spec fn ready(acts: Seq<Action>, env: EnvView, brk: Option<int>) -> bool {
    going(acts, env, brk) && at_ease(acts, env)
}

/// The same, but for the use of variables.
pub open spec fn going(acts: Seq<Action>, env: EnvView, brk: Option<int>) -> bool {
    let s = state(acts);
    let types = env.types;
    &&& accepted(acts)
    &&& s.phase is Building
    &&& s.current is Some
    &&& s.blocks.contains_key(s.current->0)
    &&& !(s.blocks[s.current->0] is Filled)
    &&& !(s.blocks[s.current->0] is Fresh)
    &&& !s.branched
    &&& forall|v: int| #[trigger]
        s.variables.contains_key(v) ==> 0 <= v < types.len() && types[v] == Some(s.variables[v])
    &&& forall|v: int|
        0 <= v < types.len() && (#[trigger] types[v]) is Some ==> s.variables.contains_key(v)
    &&& s.variable_count == variables(types)
    &&& forall|b: int| #[trigger]
        s.blocks.contains_key(b) ==> {
            &&& s.known_count[b] >= 0
            &&& s.blocks[b] is Fresh ==> s.param_count[b] == s.block_params[b].len()
            &&& s.gone.contains_key(b) <==> !(s.blocks[b] is Fresh)
            &&& s.gone.contains_key(b) ==> s.gone[b] < s.turns
        }
    &&& brk is Some ==> s.blocks.contains_key(brk->0) && s.blocks[brk->0] is Fresh
    &&& forall|b: int| #[trigger] s.gone.contains_key(b) ==> s.blocks.contains_key(b)
    &&& forall|b: int| #[trigger] s.blocks.contains_key(b) ==> 0 <= b < acts.len()
    &&& forall|x: int| #[trigger] s.values.contains_key(x) ==> 0 <= x < acts.len()
}

/// Whether the actions `to` go on after `from`: what was there is still there,
/// every block that was made since has its end or is the current one, but for
/// those of `pending`, which are yet to be gone to.
pub open spec fn grown(from: Seq<Action>, to: Seq<Action>, pending: Set<int>) -> bool {
    let (s, t) = (state(from), state(to));
    &&& from.len() <= to.len()
    &&& s.current is Some
    &&& t.current is Some
    &&& s.blocks.contains_key(s.current->0)
    &&& t.blocks.contains_key(t.current->0)
    &&& t.current == s.current || !s.blocks.contains_key(t.current->0)
    &&& t.current == s.current || t.blocks[s.current->0] is Filled
    &&& forall|x: int| #[trigger]
        s.values.contains_key(x) ==> t.values.contains_key(x) && t.values[x] == s.values[x]
    &&& forall|b: int| #[trigger]
        s.blocks.contains_key(b) ==> {
            &&& t.blocks.contains_key(b)
            &&& Some(b) != s.current ==> t.blocks[b] == s.blocks[b]
            &&& t.block_params[b] == s.block_params[b]
            &&& t.born[b] == s.born[b]
            &&& t.gone.contains_key(b) <==> s.gone.contains_key(b)
            &&& s.gone.contains_key(b) ==> t.gone[b] == s.gone[b]
            &&& s.entered.contains(b) ==> t.entered.contains(b)
        }
    &&& s.turns <= t.turns
    &&& forall|b: int| #[trigger]
        t.blocks.contains_key(b) && !s.blocks.contains_key(b) ==> {
            &&& t.born[b] >= s.turns
            &&& t.gone.contains_key(b) ==> t.gone[b] >= s.turns
        }
    &&& forall|b: int| #[trigger]
        t.blocks.contains_key(b) && !s.blocks.contains_key(b) ==> Some(b) == t.current
            || t.blocks[b] is Filled || pending.contains(b)
    &&& forall|b: int| #[trigger]
        pending.contains(b) ==> {
            &&& t.blocks.contains_key(b)
            &&& t.blocks[b] is Fresh
            &&& !s.blocks.contains_key(b)
            &&& Some(b) != t.current
        }
}

/// Whether a value is known after some actions, and of a type.
pub open spec fn gives(acts: Seq<Action>, x: int, t: IrType) -> bool {
    state(acts).has(x) && state(acts).values[x] == t
}

proof fn lemma_push(acts: Seq<Action>, a: Action)
    requires
        accepted(acts),
        state(acts).accepts(a),
        declared(acts, a),
    ensures
        accepted(acts.push(a)),
        state(acts.push(a)) == state(acts).next(a, acts.len() as int),
{
    assert(acts.push(a).drop_last() =~= acts);
    reveal(accepted);
    reveal(state);
}

proof fn lemma_grown_refl(acts: Seq<Action>)
    requires
        state(acts).current is Some,
        state(acts).blocks.contains_key(state(acts).current->0),
    ensures
        grown(acts, acts, set![]),
{
}

proof fn lemma_grown_trans(a: Seq<Action>, b: Seq<Action>, c: Seq<Action>, pending: Set<int>)
    requires
        grown(a, b, pending),
        grown(b, c, set![]),
    ensures
        grown(a, c, pending),
{
    let (r, s, t) = (state(a), state(b), state(c));
    assert forall|x: int|
        #[trigger] t.blocks.contains_key(x) && !r.blocks.contains_key(x) implies Some(x)
        == t.current || t.blocks[x] is Filled || pending.contains(x) by {
        if s.blocks.contains_key(x) {
        }
    }
    assert forall|x: int|
        #[trigger] t.blocks.contains_key(x) && !r.blocks.contains_key(x) implies t.born[x]
        >= r.turns && (t.gone.contains_key(x) ==> t.gone[x] >= r.turns) by {
        if s.blocks.contains_key(x) {
            assert(t.born[x] == s.born[x]);
        }
    }
}

/// Whether an action leaves the blocks and the variables as they are, but for
/// what it adds to the current block.
spec fn simple(a: Action) -> bool {
    match a {
        Action::Begin(..) | Action::CreateBlock | Action::SwitchToBlock(_)
        | Action::AppendFunctionParams(_) | Action::AppendBlockParam(..)
        | Action::DeclareVar(..) | Action::Brz(..) | Action::Jump(..) | Action::Return(_)
        | Action::SealAllBlocks | Action::Finalize => false,
        _ => true,
    }
}

/// Whether the current block is still the same one, and knows what it knew.
spec fn knows_more(acts: Seq<Action>, to: Seq<Action>) -> bool {
    &&& state(to).current == state(acts).current
    &&& forall|v: int| #[trigger] knows(acts, v) ==> knows(to, v)
}

/// A variable that has a name is known.
proof fn lemma_familiar(acts: Seq<Action>, scopes: Seq<Scope>, name: Seq<char>)
    requires
        familiar(acts, scopes),
        resolve(scopes, name) is Some,
    ensures
        knows(acts, resolve(scopes, name)->0),
    decreases scopes.len(),
{
    if scopes.last().contains_key(name) {
        assert(scopes[scopes.len() - 1].contains_key(name));
    } else {
        lemma_inner_familiar(acts, scopes);
        lemma_familiar(acts, scopes.drop_last(), name);
    }
}

/// What is known is known without the innermost scope.
proof fn lemma_inner_familiar(acts: Seq<Action>, scopes: Seq<Scope>)
    requires
        familiar(acts, scopes),
        scopes.len() > 0,
    ensures
        familiar(acts, scopes.drop_last()),
{
    assert forall|i: int, name: Seq<char>|
        0 <= i < scopes.drop_last().len() && #[trigger] scopes.drop_last()[i].contains_key(
            name,
        ) implies knows(acts, scopes.drop_last()[i][name]) by {
        assert(scopes[i].contains_key(name));
    }
}

/// A new scope has no names.
proof fn lemma_ready_inside(acts: Seq<Action>, env: EnvView, brk: Option<int>)
    requires
        ready(acts, env, brk),
    ensures
        ready(acts, env.enter(), brk),
{
    let inner = env.enter().scopes;
    assert forall|i: int, name: Seq<char>|
        env.lone && 0 <= i < inner.len() && #[trigger] inner[i].contains_key(name) implies knows(
        acts,
        inner[i][name],
    ) by {
        assert(env.scopes[i].contains_key(name));
    }
}

/// Outside of a scope its names are gone.
proof fn lemma_ready_outside(acts: Seq<Action>, env: EnvView, brk: Option<int>)
    requires
        ready(acts, env, brk),
        env.scopes.len() > 0,
    ensures
        ready(acts, env.leave(), brk),
{
    if env.lone {
        lemma_inner_familiar(acts, env.scopes);
    }
}

/// A name for a variable that is known.
proof fn lemma_ready_bound(
    acts: Seq<Action>,
    env: EnvView,
    brk: Option<int>,
    name: Seq<char>,
    v: int,
)
    requires
        ready(acts, env, brk),
        env.scopes.len() > 0,
        knows(acts, v),
    ensures
        ready(acts, env.bind(name, v), brk),
{
    let bound = env.bind(name, v).scopes;
    assert forall|i: int, n: Seq<char>|
        env.lone && 0 <= i < bound.len() && #[trigger] bound[i].contains_key(n) implies knows(
        acts,
        bound[i][n],
    ) by {
        if !(i == bound.len() - 1 && n == name) {
            assert(env.scopes[i].contains_key(n));
        }
    }
}

/// One more simple action.
proof fn lemma_simple(
    from: Seq<Action>,
    acts: Seq<Action>,
    env: EnvView,
    brk: Option<int>,
    pending: Set<int>,
    a: Action,
)
    requires
        going(acts, env, brk),
        grown(from, acts, pending),
        simple(a),
        state(acts).takes(a),
        declared(acts, a),
    ensures
        going(acts.push(a), env, brk),
        at_ease(acts, env) && (env.lone ==> !state(acts).misses(a)) ==> at_ease(acts.push(a), env),
        knows_more(acts, acts.push(a)),
        grown(from, acts.push(a), pending),
        grown(acts, acts.push(a), set![]),
        state(acts.push(a)) == state(acts).next(a, acts.len() as int),
{
    lemma_push(acts, a);
    let to = acts.push(a);
    assert forall|v: int| #[trigger] knows(acts, v) implies knows(to, v) by {}
    if env.lone && at_ease(acts, env) && !state(acts).misses(a) {
        assert forall|i: int, name: Seq<char>|
            0 <= i < env.scopes.len() && #[trigger] env.scopes[i].contains_key(name) implies knows(
            to,
            env.scopes[i][name],
        ) by {
            assert(knows(acts, env.scopes[i][name]));
        }
    }
}

/// One more block.
proof fn lemma_create(
    from: Seq<Action>,
    acts: Seq<Action>,
    env: EnvView,
    brk: Option<int>,
    pending: Set<int>,
)
    requires
        ready(acts, env, brk),
        !env.lone,
        grown(from, acts, pending),
    ensures
        ready(acts.push(Action::CreateBlock), env, brk),
        grown(from, acts.push(Action::CreateBlock), pending.insert(acts.len() as int)),
        state(acts.push(Action::CreateBlock)) == state(acts).next(
            Action::CreateBlock,
            acts.len() as int,
        ),
{
    lemma_push(acts, Action::CreateBlock);
    assert(!state(acts).blocks.contains_key(acts.len() as int));
    assert(!state(from).blocks.contains_key(acts.len() as int));
}

/// A parameter for a block that is yet to be gone to.
proof fn lemma_param(
    from: Seq<Action>,
    acts: Seq<Action>,
    env: EnvView,
    brk: Option<int>,
    pending: Set<int>,
    b: int,
    t: IrType,
)
    requires
        ready(acts, env, brk),
        !env.lone,
        grown(from, acts, pending),
        pending.contains(b),
        state(acts).block_params[b].len() == 0,
    ensures
        ready(acts.push(Action::AppendBlockParam(b, t)), env, brk),
        grown(from, acts.push(Action::AppendBlockParam(b, t)), pending),
        state(acts.push(Action::AppendBlockParam(b, t))).block_params[b] == seq![t],
        state(acts.push(Action::AppendBlockParam(b, t))).blocks == state(acts).blocks,
{
    lemma_push(acts, Action::AppendBlockParam(b, t));
    assert(state(acts).block_params[b].push(t) =~= seq![t]);
}

/// A jump, and going on at a block that is yet to be gone to.
proof fn lemma_goto(
    from: Seq<Action>,
    acts: Seq<Action>,
    env: EnvView,
    brk: Option<int>,
    pending: Set<int>,
    to: int,
    x: Option<int>,
    next: int,
)
    requires
        ready(acts, env, brk),
        !env.lone,
        grown(from, acts, pending),
        state(acts).can_enter(to),
        state(acts).blocks[to] is Fresh || !state(from).blocks.contains_key(to),
        forall|b: int| #[trigger]
            state(from).blocks.contains_key(b) && state(from).gone.contains_key(b) ==> state(
                from,
            ).gone[b] < state(from).turns,
        brk is Some ==> state(from).blocks.contains_key(brk->0),
        x is Some ==> state(acts).has(x->0),
        pending.contains(next),
    ensures
        ready(acts.push(Action::Jump(to, x)).push(Action::SwitchToBlock(next)), env, brk),
        grown(
            from,
            acts.push(Action::Jump(to, x)).push(Action::SwitchToBlock(next)),
            pending.remove(next),
        ),
        state(
            acts.push(Action::Jump(to, x)).push(Action::SwitchToBlock(next)),
        ).block_params == state(acts).block_params,
        state(acts.push(Action::Jump(to, x)).push(Action::SwitchToBlock(next))).blocks.dom()
            == state(acts).blocks.dom(),
        state(acts).blocks[to] is Fresh ==> state(
            acts.push(Action::Jump(to, x)).push(Action::SwitchToBlock(next)),
        ).entered.contains(to),
{
    let acts1 = acts.push(Action::Jump(to, x));
    lemma_push(acts, Action::Jump(to, x));
    lemma_push(acts1, Action::SwitchToBlock(next));
    assert(state(acts1.push(Action::SwitchToBlock(next))).blocks.dom() =~= state(acts).blocks.dom());
}

/// A conditional branch, and going on at a block that is yet to be gone to.
proof fn lemma_branch(
    from: Seq<Action>,
    acts: Seq<Action>,
    env: EnvView,
    brk: Option<int>,
    pending: Set<int>,
    x: int,
    other: int,
    next: int,
)
    requires
        ready(acts, env, brk),
        !env.lone,
        grown(from, acts, pending),
        state(acts).has(x),
        pending.contains(other),
        brk is Some ==> state(from).blocks.contains_key(brk->0),
        pending.contains(next),
    ensures
        ({
            let to = acts.push(Action::Brz(x, other)).push(Action::Jump(next, None)).push(
                Action::SwitchToBlock(next),
            );
            &&& ready(to, env, brk)
            &&& grown(from, to, pending.remove(next))
            &&& state(to).block_params == state(acts).block_params
            &&& state(to).blocks.dom() == state(acts).blocks.dom()
        }),
{
    let acts1 = acts.push(Action::Brz(x, other));
    let acts2 = acts1.push(Action::Jump(next, None));
    lemma_push(acts, Action::Brz(x, other));
    lemma_push(acts1, Action::Jump(next, None));
    lemma_push(acts2, Action::SwitchToBlock(next));
    assert(state(acts2.push(Action::SwitchToBlock(next))).blocks.dom() =~= state(acts).blocks.dom());
}

/// A jump, and going on at a new block that nothing leads to.
proof fn lemma_leave(
    from: Seq<Action>,
    acts: Seq<Action>,
    env: EnvView,
    brk: Option<int>,
    to: int,
    x: int,
)
    requires
        ready(acts, env, brk),
        !env.lone,
        grown(from, acts, set![]),
        state(acts).blocks.contains_key(to),
        state(acts).blocks[to] is Fresh,
        state(acts).has(x),
    ensures
        ({
            let acts1 = acts.push(Action::Jump(to, Some(x)));
            let end = acts1.push(Action::CreateBlock).push(
                Action::SwitchToBlock(acts1.len() as int),
            );
            &&& ready(end, env, brk)
            &&& grown(from, end, set![])
        }),
{
    let acts1 = acts.push(Action::Jump(to, Some(x)));
    let acts2 = acts1.push(Action::CreateBlock);
    lemma_push(acts, Action::Jump(to, Some(x)));
    lemma_push(acts1, Action::CreateBlock);
    lemma_push(acts2, Action::SwitchToBlock(acts1.len() as int));
}

/// A new variable.
proof fn lemma_variable(
    from: Seq<Action>,
    acts: Seq<Action>,
    env: EnvView,
    brk: Option<int>,
    t: IrType,
)
    requires
        going(acts, env, brk),
        grown(from, acts, set![]),
        env.next() < number_limit(),
        env.lone || variables(env.types) < variable_limit(),
    ensures
        going(acts.push(Action::DeclareVar(env.next(), t)), env.declare(t), brk),
        at_ease(acts, env) ==> at_ease(
            acts.push(Action::DeclareVar(env.next(), t)),
            env.declare(t),
        ),
        knows_more(acts, acts.push(Action::DeclareVar(env.next(), t))),
        grown(from, acts.push(Action::DeclareVar(env.next(), t)), set![]),
{
    let to = acts.push(Action::DeclareVar(env.next(), t));
    assert(env.types.push(Some(t)).drop_last() =~= env.types);
    lemma_push(acts, Action::DeclareVar(env.next(), t));
    assert forall|v: int| #[trigger] knows(acts, v) implies knows(to, v) by {}
    if env.lone && at_ease(acts, env) {
        assert forall|i: int, name: Seq<char>|
            0 <= i < env.scopes.len() && #[trigger] env.scopes[i].contains_key(name) implies knows(
            to,
            env.scopes[i][name],
        ) by {
            assert(knows(acts, env.scopes[i][name]));
        }
    }
}

/// A number for a data object.
proof fn lemma_number(acts: Seq<Action>, env: EnvView, brk: Option<int>)
    requires
        ready(acts, env, brk),
    ensures
        ready(acts, env.reserve(), brk),
{
    let types = env.types;
    assert(types.push(None).drop_last() =~= types);
    assert forall|v: int|
        0 <= v < types.push(None).len() && (#[trigger] types.push(None)[v]) is Some implies state(
        acts,
    ).variables.contains_key(v) by {
        assert(types[v] is Some);
    }
}

/// Several arguments are known.
spec fn all_known(acts: Seq<Action>, xs: Seq<int>) -> bool {
    state(acts).has_all(xs)
}

proof fn lemma_known(acts: Seq<Action>, to: Seq<Action>, xs: Seq<int>)
    requires
        all_known(acts, xs),
        grown(acts, to, set![]),
    ensures
        all_known(to, xs),
{
    assert forall|i: int| 0 <= i < xs.len() implies state(to).has(#[trigger] xs[i]) by {
        assert(state(acts).has(xs[i]));
    }
}

/// The address of a function of the program.
proof fn lemma_address(
    t: Type<'_>,
    name: Seq<char>,
    acts: Seq<Action>,
    env: EnvView,
    brk: Option<int>,
)
    requires
        ready(acts, env, brk),
        is_function(t, name),
    ensures
        ready(lower_function_address(t, name, acts).acts, env, brk),
        grown(acts, lower_function_address(t, name, acts).acts, set![]),
        gives(
            lower_function_address(t, name, acts).acts,
            lower_function_address(t, name, acts).value,
            ir(t),
        ),
{
    let n = acts.len() as int;
    let none = Set::<int>::empty();
    match t {
        Type::Function(a, r) => {
            lemma_grown_refl(acts);
            let d = Action::DeclareFunction(symbol(name, a@, *r), ir_types(a@), ir(*r));
            lemma_simple(acts, acts, env, brk, none, d);
            let acts1 = acts.push(d);
            lemma_simple(acts, acts1, env, brk, none, Action::ImportFunction(n, ir(*r)));
            let acts2 = acts1.push(Action::ImportFunction(n, ir(*r)));
            lemma_simple(acts, acts2, env, brk, none, Action::FuncAddr(ir(t), n + 1));
        },
        _ => {},
    }
}

/// A text.
#[verifier::rlimit(80)]
proof fn lemma_text(
    t: IrType,
    text: Seq<char>,
    number: int,
    acts: Seq<Action>,
    env: EnvView,
    brk: Option<int>,
)
    requires
        ready(acts, env, brk),
    ensures
        ready(lower_text(t, text, number, acts).acts, env, brk),
        grown(acts, lower_text(t, text, number, acts).acts, set![]),
        gives(
            lower_text(t, text, number, acts).acts,
            lower_text(t, text, number, acts).value,
            t,
        ),
{
    let n = acts.len() as int;
    let none = Set::<int>::empty();
    let bytes = bytes_of(text);
    lemma_grown_refl(acts);
    let a = Action::DeclareData(decimal(number as nat));
    lemma_simple(acts, acts, env, brk, none, a);
    let acts1 = acts.push(a);
    let a = Action::DefineData(n, bytes);
    lemma_simple(acts, acts1, env, brk, none, a);
    let acts2 = acts1.push(a);
    let a = Action::ImportData(n);
    lemma_simple(acts, acts2, env, brk, none, a);
    let acts3 = acts2.push(a);
    let a = Action::Iconst(IrType::I64, bytes.len() as i64);
    lemma_simple(acts, acts3, env, brk, none, a);
    let acts4 = acts3.push(a);
    let a = Action::GlobalValue(t, n + 2);
    lemma_simple(acts, acts4, env, brk, none, a);
    let acts5 = acts4.push(a);
    let a = Action::CreateStackSlot(16);
    lemma_simple(acts, acts5, env, brk, none, a);
    let acts6 = acts5.push(a);
    let a = Action::StackStore(n + 3, n + 5, 0);
    lemma_simple(acts, acts6, env, brk, none, a);
    let acts7 = acts6.push(a);
    let a = Action::StackStore(n + 4, n + 5, 8);
    lemma_simple(acts, acts7, env, brk, none, a);
    let acts8 = acts7.push(a);
    lemma_simple(acts, acts8, env, brk, none, Action::StackAddr(t, n + 5, 0));
}

/// A call by symbol: `r` is the type that is returned.
proof fn lemma_call_by_symbol(
    name: Seq<char>,
    params: Seq<IrType>,
    r: IrType,
    acts: Seq<Action>,
    args: Seq<int>,
    env: EnvView,
    brk: Option<int>,
)
    requires
        ready(acts, env, brk),
        all_known(acts, args),
    ensures
        ({
            let n = acts.len() as int;
            let to = acts.push(Action::DeclareFunction(name, params, r)).push(
                Action::ImportFunction(n, r),
            ).push(Action::Call(n + 1, args)).push(Action::InstResult(n + 2));
            &&& ready(to, env, brk)
            &&& grown(acts, to, set![])
            &&& gives(to, n + 3, r)
        }),
{
    let n = acts.len() as int;
    let none = Set::<int>::empty();
    lemma_grown_refl(acts);
    let a = Action::DeclareFunction(name, params, r);
    lemma_simple(acts, acts, env, brk, none, a);
    let acts1 = acts.push(a);
    let a = Action::ImportFunction(n, r);
    lemma_simple(acts, acts1, env, brk, none, a);
    let acts2 = acts1.push(a);
    lemma_known(acts, acts2, args);
    let a = Action::Call(n + 1, args);
    lemma_simple(acts, acts2, env, brk, none, a);
    let acts3 = acts2.push(a);
    lemma_simple(acts, acts3, env, brk, none, Action::InstResult(n + 2));
}

/// A call of a function.
proof fn lemma_call(
    t: Type<'_>,
    name: Seq<char>,
    var: Option<int>,
    acts: Seq<Action>,
    args: Seq<int>,
    env: EnvView,
    brk: Option<int>,
)
    requires
        ready(acts, env, brk),
        all_known(acts, args),
        is_callable(t),
        var is Some ==> 0 <= var->0 < env.types.len() && env.types[var->0] is Some,
        var is Some && env.lone ==> knows(acts, var->0),
    ensures
        ready(lower_call(t, name, var, acts, args).acts, env, brk),
        grown(acts, lower_call(t, name, var, acts, args).acts, set![]),
        gives(
            lower_call(t, name, var, acts, args).acts,
            lower_call(t, name, var, acts, args).value,
            ir(*t->Function_1),
        ),
{
    let n = acts.len() as int;
    let none = Set::<int>::empty();
    match t {
        Type::Function(a, r) => match var {
            Some(v) => {
                lemma_grown_refl(acts);
                let s = Action::ImportSignature(ir_types(a@), ir(*r));
                lemma_simple(acts, acts, env, brk, none, s);
                let acts1 = acts.push(s);
                lemma_simple(acts, acts1, env, brk, none, Action::UseVar(v));
                let acts2 = acts1.push(Action::UseVar(v));
                lemma_known(acts, acts2, args);
                let c = Action::CallIndirect(n, n + 1, args);
                lemma_simple(acts, acts2, env, brk, none, c);
                let acts3 = acts2.push(c);
                lemma_simple(acts, acts3, env, brk, none, Action::InstResult(n + 2));
            },
            None => {
                lemma_call_by_symbol(
                    symbol(name, a@, *r),
                    ir_types(a@),
                    ir(*r),
                    acts,
                    args,
                    env,
                    brk,
                );
            },
        },
        _ => {},
    }
}

/// The type of the value that a call of a built-in function gives.
spec fn builtin_type(op: Builtin, t: Type<'_>, first: IrType) -> IrType {
    match op {
        Builtin::Syscall => IrType::I64,
        Builtin::Less => IrType::B1,
        Builtin::Alloca | Builtin::Get => ir(t),
        _ => first,
    }
}

/// A call of a built-in function.
#[verifier::rlimit(80)]
proof fn lemma_builtin(
    op: Builtin,
    t: Type<'_>,
    arg: Type<'_>,
    acts: Seq<Action>,
    args: Seq<int>,
    env: EnvView,
    brk: Option<int>,
)
    requires
        ready(acts, env, brk),
        all_known(acts, args),
        takes(op, t, arg, args.len()),
        args.len() > 0 ==> suits(op, state(acts).values[args[0]]),
    ensures
        ready(lower_builtin(op, t, arg, acts, args).acts, env, brk),
        grown(acts, lower_builtin(op, t, arg, acts, args).acts, set![]),
        gives(
            lower_builtin(op, t, arg, acts, args).acts,
            lower_builtin(op, t, arg, acts, args).value,
            builtin_type(op, t, state(acts).values[args[0]]),
        ),
{
    let n = acts.len() as int;
    let none = Set::<int>::empty();
    let s = state(acts);
    lemma_grown_refl(acts);
    assert(args.len() > 0 ==> s.has(args[0]));
    assert(args.len() > 1 ==> s.has(args[1]));
    match op {
        Builtin::Cast => {},
        Builtin::Syscall => {
            lemma_call_by_symbol(
                "syscall_"@,
                syscall_params(),
                IrType::I64,
                acts,
                args,
                env,
                brk,
            );
        },
        Builtin::Alloca => match t {
            Type::Pointer(_, v) => {
                let a = Action::CreateStackSlot(byte_size(*v)->0);
                lemma_simple(acts, acts, env, brk, none, a);
                lemma_simple(acts, acts.push(a), env, brk, none, Action::StackAddr(ir(t), n, 0));
            },
            Type::Slice(_, v) => {
                let a = Action::ImulImm(args[0], size(*v));
                lemma_simple(acts, acts, env, brk, none, a);
                let acts1 = acts.push(a);
                let a = Action::CompareIntImm(
                    IntCond::UnsignedLessThanOrEqual,
                    n,
                    SLICE_BYTES as i64,
                );
                lemma_simple(acts, acts1, env, brk, none, a);
                let acts2 = acts1.push(a);
                let a = Action::TrapzStackOverflow(n + 1);
                lemma_simple(acts, acts2, env, brk, none, a);
                let acts3 = acts2.push(a);
                let a = Action::CreateStackSlot(SLICE_BYTES);
                lemma_simple(acts, acts3, env, brk, none, a);
                let acts4 = acts3.push(a);
                let a = Action::StackAddr(ir(t), n + 3, 0);
                lemma_simple(acts, acts4, env, brk, none, a);
                let acts5 = acts4.push(a);
                let a = Action::CreateStackSlot(16);
                lemma_simple(acts, acts5, env, brk, none, a);
                let acts6 = acts5.push(a);
                let a = Action::StackStore(args[0], n + 5, 0);
                lemma_simple(acts, acts6, env, brk, none, a);
                let acts7 = acts6.push(a);
                let a = Action::StackStore(n + 4, n + 5, 8);
                lemma_simple(acts, acts7, env, brk, none, a);
                let acts8 = acts7.push(a);
                lemma_simple(acts, acts8, env, brk, none, Action::StackAddr(ir(t), n + 5, 0));
            },
            _ => {},
        },
        Builtin::Get => {
            let a = Action::Load(IrType::I64, args[0], 8);
            lemma_simple(acts, acts, env, brk, none, a);
            let acts1 = acts.push(a);
            let a = Action::ImulImm(args[1], size(t));
            lemma_simple(acts, acts1, env, brk, none, a);
            let acts2 = acts1.push(a);
            let a = Action::Binary(BinaryOp::Iadd, n, n + 1);
            lemma_simple(acts, acts2, env, brk, none, a);
            let acts3 = acts2.push(a);
            lemma_simple(acts, acts3, env, brk, none, Action::Load(ir(t), n + 2, 0));
        },
        Builtin::Less => {
            let a = if is_float(t) {
                Action::FloatLessThan(args[0], args[1])
            } else if is_signed(t) {
                Action::CompareInt(IntCond::SignedLessThan, args[0], args[1])
            } else {
                Action::CompareInt(IntCond::UnsignedLessThan, args[0], args[1])
            };
            lemma_simple(acts, acts, env, brk, none, a);
        },
        _ => {
            let a = Action::Binary(binary_op(op, t), args[0], args[1]);
            lemma_simple(acts, acts, env, brk, none, a);
        },
    }
}

/// The builder takes every action that an expression is lowered to, one after
/// the other, and is then ready for more: all blocks that were made on the way
/// have their ends, and the value of the expression is known, with its type.
pub proof fn law_lowered_is_accepted(
    e: SExpr<'_>,
    acts: Seq<Action>,
    env: EnvView,
    brk: Option<int>,
)
    requires
        ready(acts, env, brk),
        sound(env),
        translatable(e, env, brk is Some),
    ensures
        ready(lower(e, acts, env, brk).acts, env_after(e, env), brk),
        grown(acts, lower(e, acts, env, brk).acts, set![]),
        gives(
            lower(e, acts, env, brk).acts,
            lower(e, acts, env, brk).value,
            value_type(e, env),
        ),
    decreases e, 1nat,
{
    let none = Set::<int>::empty();
    lemma_grown_refl(acts);
    match e {
        SExpr::Int { meta, value } => {
            let a = lower(e, acts, env, brk).acts.last();
            lemma_simple(acts, acts, env, brk, none, a);
        },
        SExpr::Symbol { meta, value } => match resolve(env.scopes, value@) {
            Some(v) => {
                lemma_resolve(env, value@);
                if env.lone {
                    lemma_familiar(acts, env.scopes, value@);
                }
                lemma_simple(acts, acts, env, brk, none, Action::UseVar(v));
            },
            None => {
                lemma_address(meta.type_, value@, acts, env, brk);
            },
        },
        SExpr::Float { meta, value } => {
            let a = lower(e, acts, env, brk).acts.last();
            lemma_simple(acts, acts, env, brk, none, a);
        },
        SExpr::Str { meta, value } => {
            lemma_text(ir(meta.type_), value@, env.next(), acts, env, brk);
            lemma_number(lower(e, acts, env, brk).acts, env, brk);
        },
        SExpr::Sequence { values, .. } => {
            lemma_enter(env);
            lemma_ready_inside(acts, env, brk);
            lemma_all_accepted(values@, acts, env.enter(), brk);
            lemma_all_kept(values@, env.enter());
            lemma_ready_outside(
                lower(e, acts, env, brk).acts,
                env_after_all(values@, env.enter()),
                brk,
            );
        },
        SExpr::Cond { meta, values, elsy } => {
            lemma_cond(e, acts, env, brk);
        },
        SExpr::Loop { .. } => {
            lemma_loop(e, acts, env, brk);
        },
        SExpr::Break { .. } => {
            lemma_break(e, acts, env, brk);
        },
        SExpr::Nil { meta } => {
            lemma_simple(
                acts,
                acts,
                env,
                brk,
                none,
                Action::Bconst(ir(meta.type_), false),
            );
        },
        SExpr::Type { value, .. } => {
            law_lowered_is_accepted(*value, acts, env, brk);
        },
        SExpr::FuncCall { .. } => {
            lemma_func_call(e, acts, env, brk);
        },
        SExpr::Declare { .. } => {
            lemma_declare_accepted(e, acts, env, brk);
        },
        SExpr::Assign { .. } => {
            lemma_assign(e, acts, env, brk);
        },
        SExpr::Attribute { meta, top, attrs } => {
            law_lowered_is_accepted(*top, acts, env, brk);
            let v = lower(*top, acts, env, brk);
            let a = lower(e, acts, env, brk).acts.last();
            lemma_simple(acts, v.acts, env_after(*top, env), brk, none, a);
        },
        SExpr::FuncDef { .. } | SExpr::StructSet { .. } => {},
    }
}

/// The builder takes what a loop is lowered to.
proof fn lemma_loop(e: SExpr<'_>, acts: Seq<Action>, env: EnvView, brk: Option<int>)
    requires
        e is Loop,
        ready(acts, env, brk),
        sound(env),
        translatable(e, env, brk is Some),
    ensures
        ready(lower(e, acts, env, brk).acts, env_after(e, env), brk),
        grown(acts, lower(e, acts, env, brk).acts, set![]),
        gives(
            lower(e, acts, env, brk).acts,
            lower(e, acts, env, brk).value,
            value_type(e, env),
        ),
    decreases e, 0nat,
{
    let none = Set::<int>::empty();
    let n = acts.len() as int;
    lemma_grown_refl(acts);
    match e {
        SExpr::Loop { meta, value } => {
            let t = ir(meta.type_);
            law_scopes_are_kept(e, env);
            lemma_create(acts, acts, env, brk, none);
            let acts1 = acts.push(Action::CreateBlock);
            lemma_create(acts, acts1, env, brk, none.insert(n));
            let acts2 = acts1.push(Action::CreateBlock);
            let both = none.insert(n).insert(n + 1);
            lemma_param(acts, acts2, env, brk, both, n + 1, t);
            let acts3 = acts2.push(Action::AppendBlockParam(n + 1, t));
            lemma_goto(acts, acts3, env, brk, both, n, None, n);
            let acts4 = acts3.push(Action::Jump(n, None)).push(Action::SwitchToBlock(n));
            let end = both.remove(n);
            assert(state(acts4).blocks.dom().contains(n + 1));
            assert(state(acts4).blocks.dom().contains(n));
            assert(ready(acts4, env, Some(n + 1)));
            lemma_enter(env);
            law_lowered_is_accepted(*value, acts4, env.enter(), Some(n + 1));
            let body = lower(*value, acts4, env.enter(), Some(n + 1));
            let after = env_after(e, env);
            lemma_grown_trans(acts, acts4, body.acts, end);
            assert(ready(body.acts, after, brk));
            lemma_goto(acts, body.acts, after, brk, end, n, None, n + 1);
            let acts5 = body.acts.push(Action::Jump(n, None)).push(Action::SwitchToBlock(n + 1));
            assert(end.remove(n + 1) =~= none);
            lemma_simple(acts, acts5, after, brk, none, Action::BlockParam(n + 1, 0));
        },
        _ => {},
    }
}

/// The builder takes what the end of a loop is lowered to.
proof fn lemma_break(e: SExpr<'_>, acts: Seq<Action>, env: EnvView, brk: Option<int>)
    requires
        e is Break,
        ready(acts, env, brk),
        sound(env),
        translatable(e, env, brk is Some),
    ensures
        ready(lower(e, acts, env, brk).acts, env_after(e, env), brk),
        grown(acts, lower(e, acts, env, brk).acts, set![]),
        gives(
            lower(e, acts, env, brk).acts,
            lower(e, acts, env, brk).value,
            value_type(e, env),
        ),
    decreases e, 0nat,
{
    let none = Set::<int>::empty();
    let n = acts.len() as int;
    lemma_grown_refl(acts);
    match e {
        SExpr::Break { meta, value } => {
            let after = env_after(e, env);
            law_scopes_are_kept(e, env);
            let t = ir(meta.type_);
            let v = match value {
                Some(e) => lower(*e, acts, env, brk),
                None => last(acts, Action::Bconst(t, false)),
            };
            match value {
                Some(e) => {
                    law_lowered_is_accepted(*e, acts, env, brk);
                },
                None => {
                    lemma_simple(acts, acts, env, brk, none, Action::Bconst(t, false));
                },
            }
            lemma_leave(acts, v.acts, after, brk, brk->0, v.value);
            let acts1 = v.acts.push(Action::Jump(brk->0, Some(v.value)));
            let acts2 = acts1.push(Action::CreateBlock).push(
                Action::SwitchToBlock(acts1.len() as int),
            );
            lemma_simple(acts, acts2, after, brk, none, Action::Bconst(t, false));
        },
        _ => {},
    }
}

/// The builder takes what a call is lowered to.
proof fn lemma_func_call(e: SExpr<'_>, acts: Seq<Action>, env: EnvView, brk: Option<int>)
    requires
        e is FuncCall,
        ready(acts, env, brk),
        sound(env),
        translatable(e, env, brk is Some),
    ensures
        ready(lower(e, acts, env, brk).acts, env_after(e, env), brk),
        grown(acts, lower(e, acts, env, brk).acts, set![]),
        gives(
            lower(e, acts, env, brk).acts,
            lower(e, acts, env, brk).value,
            value_type(e, env),
        ),
    decreases e, 0nat,
{
    let none = Set::<int>::empty();
    let n = acts.len() as int;
    lemma_grown_refl(acts);
    match e {
        SExpr::FuncCall { meta, func, values } => {
            let args = lower_all(values@, acts, env, brk);
            let after = env_after_all(values@, env);
            lemma_all_accepted(values@, acts, env, brk);
            match *func {
                SExpr::Symbol { meta: callee, value: name } => match builtin(name@) {
                    Some(op) => {
                        let arg = type_of(values@[0]);
                        lemma_builtin(
                            op,
                            meta.type_,
                            arg,
                            args.acts,
                            args.values,
                            after,
                            brk,
                        );
                        lemma_grown_trans(acts, args.acts, lower(e, acts, env, brk).acts, none);
                    },
                    None => {
                        let var = resolve(after.scopes, name@);
                        if var is Some {
                            lemma_all_kept(values@, env);
                            lemma_resolve(after, name@);
                            if after.lone {
                                lemma_familiar(args.acts, after.scopes, name@);
                            }
                        }
                        lemma_call(
                            callee.type_,
                            name@,
                            var,
                            args.acts,
                            args.values,
                            after,
                            brk,
                        );
                        lemma_grown_trans(acts, args.acts, lower(e, acts, env, brk).acts, none);
                    },
                },
                _ => {},
            }
        },
        _ => {},
    }
}

/// The builder takes what a new variable is lowered to.
proof fn lemma_declare_accepted(e: SExpr<'_>, acts: Seq<Action>, env: EnvView, brk: Option<int>)
    requires
        e is Declare,
        ready(acts, env, brk),
        sound(env),
        translatable(e, env, brk is Some),
    ensures
        ready(lower(e, acts, env, brk).acts, env_after(e, env), brk),
        grown(acts, lower(e, acts, env, brk).acts, set![]),
        gives(
            lower(e, acts, env, brk).acts,
            lower(e, acts, env, brk).value,
            value_type(e, env),
        ),
    decreases e, 0nat,
{
    let none = Set::<int>::empty();
    let n = acts.len() as int;
    lemma_grown_refl(acts);
    match e {
        SExpr::Declare { meta, variable, value, .. } => {
            let t = ir(meta.type_);
            let var = env.next();
            let inner = env.declare(t);
            let after = env_after(*value, inner);
            lemma_variable(acts, acts, env, brk, t);
            let acts1 = acts.push(Action::DeclareVar(var, t));
            lemma_declare(env, t);
            law_lowered_is_accepted(*value, acts1, inner, brk);
            law_scopes_are_kept(*value, inner);
            let v = lower(*value, acts1, inner, brk);
            lemma_grown_trans(acts, acts1, v.acts, none);
            assert(after.types[var] == Some(t)) by {
                assert(after.types.take(inner.types.len() as int)[var] == after.types[var]);
                assert(inner.types[var] == Some(t));
            }
            let d = Action::DefVar(var, v.value);
            lemma_simple(acts, v.acts, after, brk, none, d);
            lemma_ready_bound(v.acts.push(d), after, brk, variable@, var);
            lemma_simple(
                acts,
                v.acts.push(d),
                env_after(e, env),
                brk,
                none,
                Action::UseVar(var),
            );
        },
        _ => {},
    }
}

/// The builder takes what an assignment is lowered to.
proof fn lemma_assign(e: SExpr<'_>, acts: Seq<Action>, env: EnvView, brk: Option<int>)
    requires
        e is Assign,
        ready(acts, env, brk),
        sound(env),
        translatable(e, env, brk is Some),
    ensures
        ready(lower(e, acts, env, brk).acts, env_after(e, env), brk),
        grown(acts, lower(e, acts, env, brk).acts, set![]),
        gives(
            lower(e, acts, env, brk).acts,
            lower(e, acts, env, brk).value,
            value_type(e, env),
        ),
    decreases e, 0nat,
{
    let none = Set::<int>::empty();
    let n = acts.len() as int;
    lemma_grown_refl(acts);
    match e {
        SExpr::Assign { lvalue, value, .. } => {
            law_lowered_is_accepted(*value, acts, env, brk);
            let v = lower(*value, acts, env, brk);
            let after = env_after(*value, env);
            match lvalue {
                LValue::Symbol(name) => {
                    let var = assigned(env, name@);
                    let d = Action::DefVar(var, v.value);
                    lemma_simple(acts, v.acts, after, brk, none, d);
                    lemma_simple(
                        acts,
                        v.acts.push(d),
                        after,
                        brk,
                        none,
                        Action::UseVar(var),
                    );
                },
                _ => {
                    law_scopes_are_kept(*value, env);
                    lemma_place_accepted(lvalue, v.acts, after, brk);
                    let p = lower_place(lvalue, v.acts, after, brk);
                    let after = env_after_place(lvalue, after);
                    lemma_grown_trans(acts, v.acts, p.acts, none);
                    assert(state(v.acts).values.contains_key(v.value));
                    lemma_simple(
                        acts,
                        p.acts,
                        after,
                        brk,
                        none,
                        Action::Store(v.value, p.value, 0),
                    );
                },
            }
        },
        _ => {},
    }
}

/// The builder takes what several expressions are lowered to.
proof fn lemma_all_accepted(
    es: Seq<SExpr<'_>>,
    acts: Seq<Action>,
    env: EnvView,
    brk: Option<int>,
)
    requires
        ready(acts, env, brk),
        sound(env),
        all_translatable(es, env, brk is Some),
    ensures
        ready(lower_all(es, acts, env, brk).acts, env_after_all(es, env), brk),
        grown(acts, lower_all(es, acts, env, brk).acts, set![]),
        all_known(lower_all(es, acts, env, brk).acts, lower_all(es, acts, env, brk).values),
        lower_all(es, acts, env, brk).values.len() == es.len(),
        es.len() > 0 ==> gives(
            lower_all(es, acts, env, brk).acts,
            lower_all(es, acts, env, brk).values[0],
            value_type(es[0], env),
        ),
        es.len() > 0 ==> gives(
            lower_all(es, acts, env, brk).acts,
            lower_all(es, acts, env, brk).values.last(),
            value_type(es[es.len() - 1], env_after_all(es.drop_last(), env)),
        ),
    decreases es, 0nat,
{
    lemma_grown_refl(acts);
    if es.len() > 0 {
        let none = Set::<int>::empty();
        let e = es[es.len() - 1];
        let before = lower_all(es.drop_last(), acts, env, brk);
        let inner = env_after_all(es.drop_last(), env);
        lemma_all_accepted(es.drop_last(), acts, env, brk);
        lemma_all_kept(es.drop_last(), env);
        law_lowered_is_accepted(e, before.acts, inner, brk);
        let v = lower(e, before.acts, inner, brk);
        lemma_grown_trans(acts, before.acts, v.acts, none);
        lemma_known(before.acts, v.acts, before.values);
        let values = before.values.push(v.value);
        assert forall|i: int| 0 <= i < values.len() implies state(v.acts).has(
            #[trigger] values[i],
        ) by {
            if i < before.values.len() {
                assert(state(v.acts).has(before.values[i]));
            }
        }
        if es.len() == 1 {
            assert(es.drop_last() =~= seq![]);
        } else {
            assert(es.drop_last()[0] == es[0]);
            assert(state(before.acts).values.contains_key(before.values[0]));
        }
    }
}

/// The blocks of some conditions are yet to be gone to.
proof fn lemma_cond_blocks(
    count: nat,
    acts: Seq<Action>,
    env: EnvView,
    brk: Option<int>,
)
    requires
        ready(acts, env, brk),
        !env.lone,
    ensures
        cond_blocks(count, acts).len() == acts.len() + 2 * count,
        ready(cond_blocks(count, acts), env, brk),
        grown(
            acts,
            cond_blocks(count, acts),
            Set::new(|b: int| acts.len() <= b < acts.len() + 2 * count),
        ),
    decreases count,
{
    let n = acts.len() as int;
    if count == 0 {
        lemma_grown_refl(acts);
        assert(Set::new(|b: int| n <= b < n + 2 * count) =~= set![]);
    } else {
        let k = (count - 1) as nat;
        let p = Set::new(|b: int| n <= b < n + 2 * k);
        let acts1 = cond_blocks(k, acts);
        lemma_cond_blocks(k, acts, env, brk);
        lemma_create(acts, acts1, env, brk, p);
        lemma_create(acts, acts1.push(Action::CreateBlock), env, brk, p.insert(n + 2 * k));
        assert(p.insert(n + 2 * k).insert(n + 2 * k + 1) =~= Set::new(
            |b: int| n <= b < n + 2 * count,
        ));
    }
}

/// The blocks of the conditions after the first `i`, and the one at their end.
spec fn blocks_from(first: int, i: int, end: int) -> Set<int> {
    Set::new(|b: int| first + 2 * i <= b <= end)
}

/// The builder takes what some conditions and their bodies are lowered to.
proof fn lemma_arms_accepted(
    arms: Seq<(SExpr<'_>, SExpr<'_>)>,
    from: Seq<Action>,
    acts: Seq<Action>,
    env: EnvView,
    brk: Option<int>,
    first: int,
    end: int,
    t: IrType,
)
    requires
        ready(acts, env, brk),
        !env.lone,
        sound(env),
        arms_translatable(arms, env, brk is Some),
        first + 2 * arms.len() <= end,
        forall|b: int| #[trigger]
            state(from).blocks.contains_key(b) && state(from).gone.contains_key(b) ==> state(
                from,
            ).gone[b] < state(from).turns,
        brk is Some ==> state(from).blocks.contains_key(brk->0),
        grown(from, acts, blocks_from(first, 0, end)),
        state(acts).block_params[end] == seq![t],
    ensures
        ready(
            lower_arms(arms, acts, env, brk, first, end),
            env_after_arms(arms, env),
            brk,
        ),
        grown(
            from,
            lower_arms(arms, acts, env, brk, first, end),
            blocks_from(first, arms.len() as int, end),
        ),
        state(lower_arms(arms, acts, env, brk, first, end)).block_params[end] == seq![t],
    decreases arms, 0nat,
{
    if arms.len() > 0 {
        let i = arms.len() - 1;
        let (other, then) = (first + 2 * i, first + 2 * i + 1);
        let (c, b) = arms[i];
        let before = lower_arms(arms.drop_last(), acts, env, brk, first, end);
        let outer = env_after_arms(arms.drop_last(), env);
        let inner = outer.enter();
        lemma_arms_accepted(arms.drop_last(), from, acts, env, brk, first, end, t);
        lemma_arms_kept(arms.drop_last(), env);
        lemma_enter(outer);
        let p = blocks_from(first, i, end);
        assert(p.contains(other) && p.contains(then) && p.contains(end));
        law_lowered_is_accepted(arms[i].0, before, inner, brk);
        law_scopes_are_kept(arms[i].0, inner);
        let cond = lower(arms[i].0, before, inner, brk);
        let inner1 = env_after(arms[i].0, inner);
        lemma_grown_trans(from, before, cond.acts, p);
        assert(state(before).blocks.contains_key(end));
        lemma_branch(from, cond.acts, inner1, brk, p, cond.value, other, then);
        let p1 = p.remove(then);
        let acts1 = cond.acts.push(Action::Brz(cond.value, other)).push(
            Action::Jump(then, None),
        ).push(Action::SwitchToBlock(then));
        law_lowered_is_accepted(arms[i].1, acts1, inner1, brk);
        law_scopes_are_kept(arms[i].1, inner1);
        let body = lower(arms[i].1, acts1, inner1, brk);
        lemma_grown_trans(from, acts1, body.acts, p1);
        assert(p1.contains(end));
        assert(state(acts1).blocks.contains_key(end));
        lemma_goto(
            from,
            body.acts,
            env_after(arms[i].1, inner1),
            brk,
            p1,
            end,
            Some(body.value),
            other,
        );
        assert(p1.remove(other) =~= blocks_from(first, arms.len() as int, end));
    }
}

/// The builder takes what a choice is lowered to.
proof fn lemma_cond(e: SExpr<'_>, acts: Seq<Action>, env: EnvView, brk: Option<int>)
    requires
        e is Cond,
        ready(acts, env, brk),
        sound(env),
        translatable(e, env, brk is Some),
    ensures
        ready(lower(e, acts, env, brk).acts, env_after(e, env), brk),
        grown(acts, lower(e, acts, env, brk).acts, set![]),
        gives(
            lower(e, acts, env, brk).acts,
            lower(e, acts, env, brk).value,
            value_type(e, env),
        ),
    decreases e, 0nat,
{
    let none = Set::<int>::empty();
    let n = acts.len() as int;
    match e {
        SExpr::Cond { meta, values, elsy } => {
            let count = values@.len();
            let end = n + 2 * count;
            let t = ir(meta.type_);
            let p0 = Set::new(|b: int| n <= b < n + 2 * count);
            let p1 = blocks_from(n, 0, end);
            lemma_cond_blocks(count, acts, env, brk);
            let acts1 = cond_blocks(count, acts);
            lemma_create(acts, acts1, env, brk, p0);
            assert(p0.insert(end) =~= p1);
            let acts2 = acts1.push(Action::CreateBlock);
            lemma_param(acts, acts2, env, brk, p1, end, t);
            let acts3 = acts2.push(Action::AppendBlockParam(end, t));
            lemma_arms_accepted(values@, acts, acts3, env, brk, n, end, t);
            let acts4 = lower_arms(values@, acts3, env, brk, n, end);
            let inner = env_after_arms(values@, env);
            let after = env_after(e, env);
            lemma_arms_kept(values@, env);
            law_scopes_are_kept(e, env);
            let p = blocks_from(n, count as int, end);
            assert(p.contains(end));
            assert(state(acts4).blocks.contains_key(end));
            let other = match elsy {
                Some(e) => lower(*e, acts4, inner.enter(), brk),
                None => last(acts4, Action::Bconst(IrType::B1, false)),
            };
            match elsy {
                Some(e) => {
                    lemma_enter(inner);
                    law_scopes_are_kept(*e, inner.enter());
                    law_lowered_is_accepted(*e, acts4, inner.enter(), brk);
                    lemma_grown_trans(acts, acts4, other.acts, p);
                },
                None => {
                    lemma_simple(
                        acts,
                        acts4,
                        after,
                        brk,
                        p,
                        Action::Bconst(IrType::B1, false),
                    );
                },
            }
            lemma_goto(acts, other.acts, after, brk, p, end, Some(other.value), end);
            let acts5 = other.acts.push(Action::Jump(end, Some(other.value))).push(
                Action::SwitchToBlock(end),
            );
            assert(p.remove(end) =~= none);
            assert(state(acts5).blocks.dom().contains(end));
            lemma_simple(acts, acts5, after, brk, none, Action::BlockParam(end, 0));
        },
        _ => {},
    }
}

/// The builder takes what the address of a place is lowered to.
#[verifier::rlimit(80)]
proof fn lemma_place_accepted(
    place: LValue<'_>,
    acts: Seq<Action>,
    env: EnvView,
    brk: Option<int>,
)
    requires
        ready(acts, env, brk),
        sound(env),
        place_translatable(place, env, brk is Some),
    ensures
        ready(
            lower_place(place, acts, env, brk).acts,
            env_after_place(place, env),
            brk,
        ),
        grown(acts, lower_place(place, acts, env, brk).acts, set![]),
        gives(
            lower_place(place, acts, env, brk).acts,
            lower_place(place, acts, env, brk).value,
            IrType::I64,
        ),
    decreases place, 0nat,
{
    let none = Set::<int>::empty();
    lemma_grown_refl(acts);
    match place {
        LValue::Symbol(name) => {
            lemma_resolve(env, name@);
            if env.lone {
                lemma_familiar(acts, env.scopes, name@);
            }
            lemma_simple(
                acts,
                acts,
                env,
                brk,
                none,
                Action::UseVar(resolve(env.scopes, name@)->0),
            );
        },
        LValue::Attribute(..) => {},
        LValue::Deref(v) => {
            lemma_place_accepted(*v, acts, env, brk);
            let p = lower_place(*v, acts, env, brk);
            if !(*v is Symbol) {
                lemma_simple(
                    acts,
                    p.acts,
                    env_after_place(*v, env),
                    brk,
                    none,
                    Action::Load(IrType::I64, p.value, 0),
                );
            }
        },
        LValue::Get(t, v, i) => {
            law_lowered_is_accepted(*i, acts, env, brk);
            law_scopes_are_kept(*i, env);
            let env1 = env_after(*i, env);
            let index = lower(*i, acts, env, brk);
            let a = Action::ImulImm(index.value, size(t));
            lemma_simple(acts, index.acts, env1, brk, none, a);
            let offset = last(index.acts, a);
            lemma_place_accepted(*v, offset.acts, env1, brk);
            let after = env_after_place(*v, env1);
            let p = lower_place(*v, offset.acts, env1, brk);
            lemma_grown_trans(acts, offset.acts, p.acts, none);
            assert(state(offset.acts).values.contains_key(offset.value));
            let a = Action::Load(IrType::I64, p.value, 0);
            if !(*v is Symbol) {
                lemma_simple(acts, p.acts, after, brk, none, a);
            }
            let p = if *v is Symbol {
                p
            } else {
                last(p.acts, a)
            };
            let a = Action::Load(IrType::I64, p.value, 8);
            lemma_simple(acts, p.acts, after, brk, none, a);
            let base = last(p.acts, a);
            lemma_simple(
                acts,
                base.acts,
                after,
                brk,
                none,
                Action::Binary(BinaryOp::Iadd, base.value, offset.value),
            );
        },
    }
}

/// The builder takes what a function starts with, and then holds one block.
#[verifier::rlimit(80)]
proof fn lemma_start(
    args: Seq<(&str, Type<'_>)>,
    params: Seq<IrType>,
    ret: IrType,
    lone: bool,
)
    requires
        args.len() <= params.len() <= variable_limit(),
        forall|i: int| 0 <= i < args.len() ==> params[i] == ir(#[trigger] args[i].1),
    ensures
        going(start(args, params, ret), start_env(args, lone), None),
        args.len() == params.len() ==> spacious(start(args, params, ret)),
        state(start(args, params, ret)).block_params[1] == params,
        state(start(args, params, ret)).param_count[1] == params.len(),
        state(start(args, params, ret)).known_count[1] == args.len(),
        forall|v: int| #[trigger]
            state(start(args, params, ret)).known.contains_key((1int, v)) ==> v < args.len(),
        state(start(args, params, ret)).current == Some(1int),
        forall|b: int| #[trigger]
            state(start(args, params, ret)).blocks.contains_key(b) ==> b == 1,
    decreases args.len(),
{
    if args.len() == 0 {
        let acts: Seq<Action> = seq![];
        assert(accepted(acts)) by {
            reveal(accepted);
        }
        assert(state(acts) == unstarted()) by {
            reveal(state);
        }
        lemma_push(acts, Action::Begin(params, ret));
        let acts1 = acts.push(Action::Begin(params, ret));
        lemma_push(acts1, Action::CreateBlock);
        let acts2 = acts1.push(Action::CreateBlock);
        lemma_push(acts2, Action::AppendFunctionParams(1));
        let acts3 = acts2.push(Action::AppendFunctionParams(1));
        lemma_push(acts3, Action::SwitchToBlock(1));
        let acts4 = acts3.push(Action::SwitchToBlock(1));
        let none: Seq<IrType> = seq![];
        assert(none + params =~= params);
        assert(start(args, params, ret) =~= acts4);
    } else {
        let i = args.len() - 1;
        let t = ir(args.last().1);
        let before = start(args.drop_last(), params, ret);
        let env = start_env(args.drop_last(), lone);
        assert forall|j: int| 0 <= j < args.drop_last().len() implies params[j] == ir(
            #[trigger] args.drop_last()[j].1,
        ) by {
            assert(args.drop_last()[j] == args[j]);
        }
        lemma_start(args.drop_last(), params, ret, lone);
        lemma_start_env(args.drop_last(), lone);
        lemma_grown_refl(before);
        lemma_variable(before, before, env, None, t);
        lemma_push(before, Action::DeclareVar(i, t));
        let acts1 = before.push(Action::DeclareVar(i, t));
        let env1 = env.declare(t);
        let none = Set::<int>::empty();
        lemma_simple(before, acts1, env1, None, none, Action::BlockParam(1, i));
        let acts2 = acts1.push(Action::BlockParam(1, i));
        assert(env1.types[i] == Some(t));
        assert(params[i] == ir(args[i].1));
        let a = Action::DefVar(i, before.len() as int + 1);
        lemma_simple(before, acts2, env1, None, none, a);
    }
}

/// Every parameter is known after the start of a function.
proof fn lemma_start_familiar(args: Seq<(&str, Type<'_>)>, params: Seq<IrType>, ret: IrType)
    requires
        args.len() <= params.len() <= variable_limit(),
        forall|i: int| 0 <= i < args.len() ==> params[i] == ir(#[trigger] args[i].1),
    ensures
        familiar(start(args, params, ret), start_env(args, true).scopes),
    decreases args.len(),
{
    let to = start(args, params, ret);
    lemma_start(args, params, ret, true);
    if args.len() == 0 {
        lemma_start_missed_none(params, ret);
    } else {
        let i = args.len() - 1;
        let before = start(args.drop_last(), params, ret);
        let env = start_env(args.drop_last(), true);
        assert forall|j: int| 0 <= j < args.drop_last().len() implies params[j] == ir(
            #[trigger] args.drop_last()[j].1,
        ) by {
            assert(args.drop_last()[j] == args[j]);
        }
        lemma_start_familiar(args.drop_last(), params, ret);
        lemma_start(args.drop_last(), params, ret, true);
        lemma_start_env(args.drop_last(), true);
        let acts1 = before.push(Action::DeclareVar(i, ir(args.last().1)));
        let acts2 = acts1.push(Action::BlockParam(1, i));
        lemma_state(before, Action::DeclareVar(i, ir(args.last().1)));
        lemma_state(acts1, Action::BlockParam(1, i));
        lemma_state(acts2, Action::DefVar(i, before.len() as int + 1));
        assert forall|v: int| #[trigger] knows(before, v) implies knows(to, v) by {}
        assert(knows(to, i));
        let bound = env.bind(args.last().0@, i).scopes;
        assert forall|k: int, n: Seq<char>|
            0 <= k < bound.len() && #[trigger] bound[k].contains_key(n) implies knows(
            to,
            bound[k][n],
        ) by {
            if !(k == bound.len() - 1 && n == args.last().0@) {
                assert(env.scopes[k].contains_key(n));
                assert(knows(before, env.scopes[k][n]));
            }
        }
        assert(start_env(args, true).scopes == bound);
    }
}

/// What one more action does.
proof fn lemma_state(acts: Seq<Action>, a: Action)
    ensures
        state(acts.push(a)) == state(acts).next(a, acts.len() as int),
{
    assert(acts.push(a).drop_last() =~= acts);
    reveal(state);
}

proof fn lemma_start_missed_none(params: Seq<IrType>, ret: IrType)
    ensures
        !state(start(seq![], params, ret)).missed,
{
    let acts: Seq<Action> = seq![];
    assert(state(acts) == unstarted()) by {
        reveal(state);
    }
    lemma_state(acts, Action::Begin(params, ret));
    let acts1 = acts.push(Action::Begin(params, ret));
    lemma_state(acts1, Action::CreateBlock);
    let acts2 = acts1.push(Action::CreateBlock);
    lemma_state(acts2, Action::AppendFunctionParams(1));
    let acts3 = acts2.push(Action::AppendFunctionParams(1));
    lemma_state(acts3, Action::SwitchToBlock(1));
    assert(start(seq![], params, ret) =~= acts3.push(Action::SwitchToBlock(1)));
}

/// The builder takes every action that a function is lowered to, one after the
/// other; the function is then finished, and every block of it ends in a jump
/// or a return.
pub proof fn law_function_is_accepted(
    name: Seq<char>,
    args: Seq<(&str, Type<'_>)>,
    ret: Type<'_>,
    expr: SExpr<'_>,
)
    requires
        function_translatable(name, args, ret, expr),
    ensures
        accepted(lower_function(args, ret, expr)),
        state(lower_function(args, ret, expr)).phase is Finished,
        state(lower_function(args, ret, expr)).all_filled(),
{
    let params = ir_types(arg_types(args));
    let acts = start(args, params, ir(ret));
    let env = body_env(args, expr);
    let lone = keeps_to_one_block(args, expr);
    assert forall|i: int| 0 <= i < args.len() implies params[i] == ir(#[trigger] args[i].1) by {
        assert(arg_types(args)[i] == args[i].1);
    }
    lemma_start(args, params, ir(ret), lone);
    if lone {
        lemma_start_familiar(args, params, ir(ret));
    }
    lemma_start_env(args, lone);
    law_scopes_are_kept(expr, env);
    law_lowered_is_accepted(expr, acts, env, None);
    let body = lower(expr, acts, env, None);
    lemma_push(body.acts, Action::Return(body.value));
    let acts1 = body.acts.push(Action::Return(body.value));
    lemma_push(acts1, Action::SealAllBlocks);
    let acts2 = acts1.push(Action::SealAllBlocks);
    lemma_push(acts2, Action::Finalize);
}

} // verus!
