//! What planned steps come to on a builder and a module.
//!
//! A plan names what a step gave by the step's place; a builder and a module
//! give numbers of their own. Here the one is held against the other: what a
//! plan is allowed to do, its renamed steps are allowed to do.

use vstd::prelude::*;

use crate::ir::IrType;
use crate::module_log::{
    has_data, has_function, owned_data, owned_function, signature_of, Entry, Log, Visibility,
};
use crate::protocol::{placed, History, State};
use crate::step::{Action, Convention, SigView};

verus! {

/// Whether a step is a request to the module.
pub open spec fn on_module(a: Action) -> bool {
    a is DeclareFunction || a is DeclareData || a is DefineData
}

/// What was given at some places.
pub open spec fn given(xs: Seq<int>, m: Seq<int>) -> Seq<int> {
    Seq::new(xs.len(), |i: int| m[xs[i]])
}

/// A signature of what planned steps call.
pub open spec fn call_signature(params: Seq<IrType>, ret: IrType) -> SigView {
    SigView { params, returns: seq![ret], convention: Convention::SystemV }
}

/// What a step comes to on the builder, where `m` holds what the steps before it
/// gave, and `log` what was asked of the module.
pub open spec fn rename(a: Action, m: Seq<int>, log: Log) -> Action {
    match a {
        Action::SwitchToBlock(b) => Action::SwitchToBlock(m[b]),
        Action::AppendFunctionParams(b) => Action::AppendFunctionParams(m[b]),
        Action::AppendBlockParam(b, t) => Action::AppendBlockParam(m[b], t),
        Action::BlockParam(b, i) => Action::BlockParam(m[b], i),
        Action::DefVar(v, x) => Action::DefVar(v, m[x]),
        Action::ImportFunction(f, _) => Action::LinkFunction(
            m[f],
            signature_of(log, m[f]),
            owned_function(log, m[f]),
        ),
        Action::ImportData(d) => Action::LinkData(m[d], owned_data(log, m[d])),
        Action::FuncAddr(t, f) => Action::FuncAddr(t, m[f]),
        Action::GlobalValue(t, d) => Action::GlobalValue(t, m[d]),
        Action::StackStore(x, s, o) => Action::StackStore(m[x], m[s], o),
        Action::StackAddr(t, s, o) => Action::StackAddr(t, m[s], o),
        Action::Binary(op, x, y) => Action::Binary(op, m[x], m[y]),
        Action::ImulImm(x, c) => Action::ImulImm(m[x], c),
        Action::CompareInt(cc, x, y) => Action::CompareInt(cc, m[x], m[y]),
        Action::CompareIntImm(cc, x, c) => Action::CompareIntImm(cc, m[x], c),
        Action::FloatLessThan(x, y) => Action::FloatLessThan(m[x], m[y]),
        Action::TrapzStackOverflow(x) => Action::TrapzStackOverflow(m[x]),
        Action::Load(t, p, o) => Action::Load(t, m[p], o),
        Action::Store(x, p, o) => Action::Store(m[x], m[p], o),
        Action::Brz(c, b) => Action::Brz(m[c], m[b]),
        Action::Jump(b, Some(x)) => Action::Jump(m[b], Some(m[x])),
        Action::Jump(b, None) => Action::Jump(m[b], None),
        Action::Return(x) => Action::Return(m[x]),
        Action::Call(f, xs) => Action::Call(m[f], given(xs, m)),
        Action::CallIndirect(s, x, xs) => Action::CallIndirect(m[s], m[x], given(xs, m)),
        Action::InstResult(i) => Action::InstResult(m[i]),
        _ => a,
    }
}

/// What a step comes to on the module, where `m` holds what the steps before it
/// gave: functions are declared as defined elsewhere, data is read-only and
/// private to the program.
pub open spec fn request(a: Action, m: Seq<int>, answer: Option<int>) -> Entry {
    match a {
        Action::DeclareFunction(n, p, t) => Entry::DeclareFunction {
            name: n,
            visibility: Visibility::Import,
            signature: call_signature(p, t),
            id: answer,
        },
        Action::DeclareData(n) => Entry::DeclareData {
            name: n,
            visibility: Visibility::Hidden,
            writable: false,
            id: answer,
        },
        Action::DefineData(d, bytes) => Entry::DefineData { id: m[d], bytes, done: answer is Some },
        _ => arbitrary(),
    }
}

/// What some steps ask of the module, where `m` holds what they gave.
pub open spec fn requests(acts: Seq<Action>, m: Seq<int>) -> Log
    decreases acts.len(),
{
    if acts.len() == 0 {
        seq![]
    } else {
        let before = requests(acts.drop_last(), m.drop_last());
        if on_module(acts.last()) {
            before.push(request(acts.last(), m.drop_last(), Some(m.last())))
        } else {
            before
        }
    }
}

/// What some steps call on the builder, where `m` holds what they gave, and
/// `log` what was asked of the module before.
pub open spec fn history(acts: Seq<Action>, m: Seq<int>, log: Log) -> History
    decreases acts.len(),
{
    if acts.len() == 0 {
        seq![]
    } else {
        let before = history(acts.drop_last(), m.drop_last(), log);
        if on_module(acts.last()) {
            before
        } else {
            let now = log + requests(acts.drop_last(), m.drop_last());
            before.push((rename(acts.last(), m.drop_last(), now), m.last()))
        }
    }
}

/// Whether the steps that give nothing to the plan gave zero.
pub open spec fn settled(acts: Seq<Action>, m: Seq<int>) -> bool {
    forall|j: int| 0 <= j < acts.len() ==> (#[trigger] acts[j] is DefineData ==> m[j] == 0)
}

/// Whether a place has been given something.
pub open spec fn in_range(x: int, m: Seq<int>) -> bool {
    0 <= x < m.len()
}

/// Whether the values of a plan are those of a builder.
pub open spec fn same_values(plan: State, made: State, m: Seq<int>) -> bool {
    forall|x: int| #[trigger]
        plan.values.contains_key(x) ==> {
            &&& in_range(x, m)
            &&& made.values.contains_key(m[x])
            &&& made.values[m[x]] == plan.values[x]
        }
}

/// Whether the blocks of a plan are those of a builder.
pub open spec fn same_blocks(plan: State, made: State, m: Seq<int>) -> bool {
    &&& forall|b: int| #[trigger]
        plan.blocks.contains_key(b) ==> {
            &&& in_range(b, m)
            &&& made.blocks.contains_key(m[b])
            &&& made.blocks[m[b]] == plan.blocks[b]
            &&& made.block_params[m[b]] == plan.block_params[b]
            &&& made.param_count[m[b]] == plan.param_count[b]
            &&& made.known_count[m[b]] == plan.known_count[b]
        }
    &&& forall|b: int, v: int|
        plan.blocks.contains_key(b) ==> #[trigger] plan.known.contains_key((b, v))
            == made.known.contains_key((m[b], v))
    &&& forall|b: int, v: int| #[trigger]
        plan.known.contains_key((b, v)) ==> plan.blocks.contains_key(b)
    &&& forall|b: int, v: int| #[trigger]
        made.known.contains_key((b, v)) ==> made.blocks.contains_key(b)
    &&& forall|b: int, c: int| #[trigger]
        plan.blocks.contains_key(b) && #[trigger] plan.blocks.contains_key(c) && m[b] == m[c] ==> b
            == c
    &&& forall|r: int| #[trigger]
        made.blocks.contains_key(r) ==> exists|b: int| #[trigger]
            plan.blocks.contains_key(b) && m[b] == r
    &&& match plan.current {
        Some(b) => plan.blocks.contains_key(b) && made.current == Some(m[b]),
        None => made.current is None,
    }
}

/// Whether the blocks of a plan were gone to in the order of those of a builder.
pub open spec fn same_turns(plan: State, made: State, m: Seq<int>) -> bool {
    &&& plan.turns == made.turns
    &&& plan.current is Some ==> plan.gone.contains_key(plan.current->0)
    &&& forall|b: int| #[trigger]
        plan.blocks.contains_key(b) ==> {
            &&& made.born[m[b]] == plan.born[b]
            &&& made.gone.contains_key(m[b]) <==> plan.gone.contains_key(b)
            &&& plan.gone.contains_key(b) ==> made.gone[m[b]] == plan.gone[b]
            &&& plan.gone.contains_key(b) <==> !(plan.blocks[b] is Fresh)
            &&& plan.entered.contains(b) ==> made.entered.contains(m[b])
        }
    &&& forall|b: int| #[trigger] plan.entered.contains(b) ==> plan.blocks.contains_key(b)
    &&& forall|b: int| #[trigger] plan.gone.contains_key(b) ==> plan.blocks.contains_key(b)
    &&& forall|r: int| #[trigger] made.gone.contains_key(r) ==> made.blocks.contains_key(r)
}

/// Whether what a plan made known is what a builder was made to know.
pub open spec fn same_links(plan: State, made: State, m: Seq<int>) -> bool {
    &&& forall|x: int| #[trigger]
        plan.slots.contains_key(x) ==> in_range(x, m) && made.slots.contains_key(m[x])
            && made.slots[m[x]] == plan.slots[x]
    &&& forall|x: int| #[trigger]
        plan.globals.contains(x) ==> in_range(x, m) && made.globals.contains(m[x])
    &&& forall|x: int| #[trigger]
        plan.signatures.contains_key(x) ==> in_range(x, m) && made.signatures.contains_key(m[x])
            && made.signatures[m[x]] == plan.signatures[x]
    &&& forall|x: int| #[trigger]
        plan.functions.contains_key(x) ==> in_range(x, m) && made.functions.contains_key(m[x])
            && made.functions[m[x]] == plan.functions[x]
    &&& forall|x: int| #[trigger]
        plan.calls.contains_key(x) ==> in_range(x, m) && made.calls.contains_key(m[x])
            && made.calls[m[x]] == plan.calls[x]
}

/// Whether a builder stands where a plan stands.
pub open spec fn same(plan: State, made: State, m: Seq<int>) -> bool {
    &&& plan.phase == made.phase
    &&& plan.params == made.params
    &&& plan.branched == made.branched
    &&& plan.variables == made.variables
    &&& plan.variable_count == made.variable_count
    &&& plan.missed == made.missed
    &&& same_values(plan, made, m)
    &&& same_blocks(plan, made, m)
    &&& same_turns(plan, made, m)
    &&& same_links(plan, made, m)
}

/// Whether a step speaks of places that have been given something.
pub open spec fn refers(a: Action, m: Seq<int>) -> bool {
    match a {
        Action::SwitchToBlock(x) | Action::AppendFunctionParams(x) | Action::AppendBlockParam(x, _)
        | Action::BlockParam(x, _) | Action::DefVar(_, x) | Action::ImportFunction(x, _)
        | Action::ImportData(x) | Action::FuncAddr(_, x) | Action::GlobalValue(_, x)
        | Action::StackAddr(_, x, _) | Action::ImulImm(x, _) | Action::CompareIntImm(_, x, _)
        | Action::TrapzStackOverflow(x) | Action::Load(_, x, _) | Action::Return(x)
        | Action::InstResult(x) | Action::DefineData(x, _) => in_range(x, m),
        Action::StackStore(x, y, _) | Action::Binary(_, x, y) | Action::CompareInt(_, x, y)
        | Action::FloatLessThan(x, y) | Action::Store(x, y, _) | Action::Brz(x, y) => {
            in_range(x, m) && in_range(y, m)
        },
        Action::Jump(b, x) => in_range(b, m) && (x is Some ==> in_range(x->0, m)),
        Action::Call(f, xs) => {
            in_range(f, m) && forall|i: int| 0 <= i < xs.len() ==> in_range(#[trigger] xs[i], m)
        },
        Action::CallIndirect(s, x, xs) => {
            in_range(s, m) && in_range(x, m) && forall|i: int|
                0 <= i < xs.len() ==> in_range(#[trigger] xs[i], m)
        },
        _ => true,
    }
}

/// Whether what a plan declared is declared in the module.
pub open spec fn module_knows(acts: Seq<Action>, m: Seq<int>, log: Log) -> bool {
    &&& m.len() == acts.len()
    &&& forall|j: int|
        0 <= j < acts.len() ==> (#[trigger] acts[j] matches Action::DeclareFunction(_, p, t)
            ==> has_function(log, m[j], call_signature(p, t)))
    &&& forall|j: int|
        0 <= j < acts.len() ==> (#[trigger] acts[j] is DeclareData ==> has_data(log, m[j]))
}

/// Whether the module can answer an import.
pub open spec fn linkable(a: Action, m: Seq<int>, log: Log) -> bool {
    match a {
        Action::ImportFunction(f, t) => {
            &&& has_function(log, m[f], signature_of(log, m[f]))
            &&& signature_of(log, m[f]).returns == seq![t]
        },
        Action::ImportData(d) => has_data(log, m[d]),
        _ => true,
    }
}

/// A builder takes what the plan that it follows was allowed to do.
pub proof fn lemma_taken(plan: State, made: State, m: Seq<int>, a: Action, log: Log)
    requires
        same(plan, made, m),
        plan.accepts(a),
        !on_module(a),
        (a is ImportFunction || a is ImportData) ==> refers(a, m),
    ensures
        refers(a, m),
        made.accepts(rename(a, m, log)),
        made.result(rename(a, m, log)) == plan.result(a),
        placed(rename(a, m, log)) == placed(a),
{
    match a {
        Action::Call(_, xs) | Action::CallIndirect(_, _, xs) => {
            assert forall|i: int| 0 <= i < xs.len() implies in_range(#[trigger] xs[i], m)
                && made.has(m[xs[i]]) by {
                assert(plan.has(xs[i]));
            }
            let ys = given(xs, m);
            assert forall|i: int| 0 <= i < ys.len() implies made.has(#[trigger] ys[i]) by {
                assert(plan.has(xs[i]));
            }
            assert(made.has_all(ys));
        },
        Action::SealAllBlocks | Action::Finalize => {
            assert forall|r: int| #[trigger] made.blocks.contains_key(r) implies made.blocks[r] is Filled by {
                let b = choose|b: int| #[trigger] plan.blocks.contains_key(b) && m[b] == r;
                assert(plan.blocks[b] is Filled);
            }
        },
        _ => {},
    }
}

/// The values stay the same after a step.
proof fn lemma_values_kept(plan: State, made: State, m: Seq<int>, a: Action, b: Action, r: int)
    requires
        same_values(plan, made, m),
        forall|x: int| #[trigger] plan.values.contains_key(x) ==> x < m.len(),
        made.result(b) == plan.result(a),
        made.result(b) is Some ==> made.has(r) ==> Some(made.values[r]) == made.result(b),
    ensures
        same_values(plan.next(a, m.len() as int), made.next(b, r), m.push(r)),
{
    let n = m.len() as int;
    let (plan2, made2, m2) = (plan.next(a, n), made.next(b, r), m.push(r));
    assert(plan2.values == match plan.result(a) {
        Some(t) => plan.values.insert(n, t),
        None => plan.values,
    });
    assert(made2.values == match made.result(b) {
        Some(t) => made.values.insert(r, t),
        None => made.values,
    });
    assert forall|x: int| #[trigger] plan2.values.contains_key(x) implies {
        &&& in_range(x, m2)
        &&& made2.values.contains_key(m2[x])
        &&& made2.values[m2[x]] == plan2.values[x]
    } by {
        if x != n || plan.result(a) is None {
            assert(plan.values.contains_key(x));
            assert(m2[x] == m[x]);
        }
    }
}

/// What `gives` says of a value that was there before: it keeps its type.
proof fn lemma_given_type(made: State, b: Action, r: int)
    requires
        made.gives(b, r),
    ensures
        made.result(b) is Some ==> made.has(r) ==> Some(made.values[r]) == made.result(b),
{
}

/// The blocks stay the same after a step.
proof fn lemma_blocks_kept(
    plan: State,
    made: State,
    m: Seq<int>,
    a: Action,
    log: Log,
    r: int,
)
    requires
        same(plan, made, m),
        plan.accepts(a),
        !on_module(a),
        made.gives(rename(a, m, log), r),
    ensures
        same_blocks(plan.next(a, m.len() as int), made.next(rename(a, m, log), r), m.push(r)),
{
    let n = m.len() as int;
    let b = rename(a, m, log);
    let (plan2, made2, m2) = (plan.next(a, n), made.next(b, r), m.push(r));
    assert forall|x: int| plan.blocks.contains_key(x) implies #[trigger] m2[x] == m[x] by {}
    assert(placed(b) == placed(a));
    assert forall|x: int| #[trigger] plan2.blocks.contains_key(x) implies {
        ||| plan.blocks.contains_key(x)
        ||| x == n && a is CreateBlock
    } by {}
    assert forall|x: int| #[trigger] plan2.blocks.contains_key(x) implies {
        &&& in_range(x, m2)
        &&& made2.blocks.contains_key(m2[x])
        &&& made2.blocks[m2[x]] == plan2.blocks[x]
        &&& made2.block_params[m2[x]] == plan2.block_params[x]
    } by {
        if plan.blocks.contains_key(x) {
            assert(m2[x] == m[x]);
        }
    }
    assert forall|x: int, y: int| #[trigger]
        plan2.blocks.contains_key(x) && #[trigger] plan2.blocks.contains_key(y) && m2[x]
            == m2[y] implies x == y by {
        if plan.blocks.contains_key(x) {
            assert(m2[x] == m[x]);
        }
        if plan.blocks.contains_key(y) {
            assert(m2[y] == m[y]);
        }
    }
    assert forall|k: int| #[trigger] made2.blocks.contains_key(k) implies exists|x: int| #[trigger]
        plan2.blocks.contains_key(x) && m2[x] == k by {
        if made.blocks.contains_key(k) {
            let x = choose|x: int| #[trigger] plan.blocks.contains_key(x) && m[x] == k;
            assert(plan2.blocks.contains_key(x) && m2[x] == k);
        } else {
            assert(a is CreateBlock && k == r);
            assert(plan2.blocks.contains_key(n) && m2[n] == k);
        }
    }
}

/// The order of blocks stays the same after a step.
proof fn lemma_turns_kept(
    plan: State,
    made: State,
    m: Seq<int>,
    a: Action,
    log: Log,
    r: int,
)
    requires
        same(plan, made, m),
        plan.accepts(a),
        !on_module(a),
        made.gives(rename(a, m, log), r),
    ensures
        same_turns(plan.next(a, m.len() as int), made.next(rename(a, m, log), r), m.push(r)),
{
    let n = m.len() as int;
    let b = rename(a, m, log);
    let (plan2, made2, m2) = (plan.next(a, n), made.next(b, r), m.push(r));
    assert forall|x: int| plan.blocks.contains_key(x) implies #[trigger] m2[x] == m[x] by {}
    assert(placed(b) == placed(a));
    assert forall|x: int| #[trigger] plan2.blocks.contains_key(x) implies {
        &&& made2.born[m2[x]] == plan2.born[x]
        &&& made2.gone.contains_key(m2[x]) <==> plan2.gone.contains_key(x)
        &&& plan2.gone.contains_key(x) ==> made2.gone[m2[x]] == plan2.gone[x]
        &&& plan2.gone.contains_key(x) <==> !(plan2.blocks[x] is Fresh)
        &&& plan2.entered.contains(x) ==> made2.entered.contains(m2[x])
    } by {
        if plan.blocks.contains_key(x) {
            assert(m2[x] == m[x]);
            assert(made.blocks.contains_key(m[x]));
            match a {
                Action::Jump(h, _) | Action::Brz(_, h) => {
                    assert(plan.blocks.contains_key(h));
                    assert(made.blocks[m[h]] == plan.blocks[h]);
                    if !(plan.blocks[h] is Fresh) {
                        assert(made.gone[m[h]] == plan.gone[h]);
                        assert(made.gone_since(m[x], m[h]) <==> plan.gone_since(x, h));
                    }
                },
                _ => {},
            }
        } else {
            assert(x == n && a is CreateBlock);
            assert(!made.blocks.contains_key(r));
            assert(!made.gone.contains_key(r));
            assert(!plan.gone.contains_key(n));
            assert(!plan.entered.contains(n));
        }
    }
}

/// What was made known stays the same after a step.
proof fn lemma_links_kept(
    plan: State,
    made: State,
    m: Seq<int>,
    a: Action,
    log: Log,
    r: int,
)
    requires
        same(plan, made, m),
        plan.accepts(a),
        !on_module(a),
        linkable(a, m, log),
        made.gives(rename(a, m, log), r),
    ensures
        same_links(plan.next(a, m.len() as int), made.next(rename(a, m, log), r), m.push(r)),
{
    let m2 = m.push(r);
    assert forall|x: int| in_range(x, m) implies #[trigger] m2[x] == m[x] by {}
}

/// A builder that follows a plan goes where the plan goes.
pub proof fn lemma_step_kept(
    plan: State,
    made: State,
    m: Seq<int>,
    a: Action,
    log: Log,
    r: int,
)
    requires
        same(plan, made, m),
        plan.accepts(a),
        !on_module(a),
        (a is ImportFunction || a is ImportData) ==> refers(a, m),
        linkable(a, m, log),
        made.gives(rename(a, m, log), r),
    ensures
        same(plan.next(a, m.len() as int), made.next(rename(a, m, log), r), m.push(r)),
{
    let b = rename(a, m, log);
    lemma_taken(plan, made, m, a, log);
    lemma_given_type(made, b, r);
    lemma_values_kept(plan, made, m, a, b, r);
    lemma_blocks_kept(plan, made, m, a, log, r);
    lemma_turns_kept(plan, made, m, a, log, r);
    lemma_links_kept(plan, made, m, a, log, r);
}

/// A request to the module leaves the builder where it is.
pub proof fn lemma_request_kept(plan: State, made: State, m: Seq<int>, a: Action, r: int)
    requires
        same(plan, made, m),
        on_module(a),
    ensures
        same(plan.next(a, m.len() as int), made, m.push(r)),
{
    let n = m.len() as int;
    let m2 = m.push(r);
    let plan2 = plan.next(a, n);
    assert(plan2 == (State { branched: plan.branched, ..plan }));
    assert forall|x: int| in_range(x, m) implies #[trigger] m2[x] == m[x] by {}
    assert forall|k: int| #[trigger] made.blocks.contains_key(k) implies exists|x: int| #[trigger]
        plan2.blocks.contains_key(x) && m2[x] == k by {
        let x = choose|x: int| #[trigger] plan.blocks.contains_key(x) && m[x] == k;
        assert(plan2.blocks.contains_key(x) && m2[x] == k);
    }
}

} // verus!
