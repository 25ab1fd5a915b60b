//! Code is built as it was planned.

use vstd::prelude::*;

use crate::module_log::{Entry, Log};
use crate::protocol::{accepted, declared, state};
use crate::renaming::{history, on_module, rename, request, requests};
use crate::step::Action;

verus! {

/// What a step speaks of that other steps gave, in order.
pub open spec fn operands(a: Action) -> Seq<int> {
    match a {
        Action::SwitchToBlock(x) | Action::AppendFunctionParams(x) | Action::AppendBlockParam(x, _)
        | Action::BlockParam(x, _) | Action::DefVar(_, x) | Action::ImportFunction(x, _)
        | Action::ImportData(x) | Action::LinkFunction(x, _, _) | Action::LinkData(x, _)
        | Action::FuncAddr(_, x) | Action::GlobalValue(_, x) | Action::StackAddr(_, x, _)
        | Action::ImulImm(x, _) | Action::CompareIntImm(_, x, _) | Action::TrapzStackOverflow(x)
        | Action::Load(_, x, _) | Action::Return(x) | Action::InstResult(x)
        | Action::DefineData(x, _) | Action::Jump(x, None) => seq![x],
        Action::StackStore(x, y, _) | Action::Binary(_, x, y) | Action::CompareInt(_, x, y)
        | Action::FloatLessThan(x, y) | Action::Store(x, y, _) | Action::Brz(x, y)
        | Action::Jump(x, Some(y)) => seq![x, y],
        Action::Call(f, xs) => seq![f] + xs,
        Action::CallIndirect(s, x, xs) => seq![s, x] + xs,
        _ => seq![],
    }
}

/// A step apart from its operands: what it does, and with which constants.
pub open spec fn bare(a: Action) -> Action {
    match a {
        Action::SwitchToBlock(_) => Action::SwitchToBlock(0),
        Action::AppendFunctionParams(_) => Action::AppendFunctionParams(0),
        Action::AppendBlockParam(_, t) => Action::AppendBlockParam(0, t),
        Action::BlockParam(_, i) => Action::BlockParam(0, i),
        Action::DefVar(v, _) => Action::DefVar(v, 0),
        Action::FuncAddr(t, _) => Action::FuncAddr(t, 0),
        Action::GlobalValue(t, _) => Action::GlobalValue(t, 0),
        Action::StackStore(_, _, o) => Action::StackStore(0, 0, o),
        Action::StackAddr(t, _, o) => Action::StackAddr(t, 0, o),
        Action::Binary(op, _, _) => Action::Binary(op, 0, 0),
        Action::ImulImm(_, n) => Action::ImulImm(0, n),
        Action::CompareInt(how, _, _) => Action::CompareInt(how, 0, 0),
        Action::CompareIntImm(how, _, n) => Action::CompareIntImm(how, 0, n),
        Action::FloatLessThan(_, _) => Action::FloatLessThan(0, 0),
        Action::TrapzStackOverflow(_) => Action::TrapzStackOverflow(0),
        Action::Load(t, _, o) => Action::Load(t, 0, o),
        Action::Store(_, _, o) => Action::Store(0, 0, o),
        Action::Brz(_, _) => Action::Brz(0, 0),
        Action::Jump(_, Some(_)) => Action::Jump(0, Some(0)),
        Action::Jump(_, None) => Action::Jump(0, None),
        Action::Return(_) => Action::Return(0),
        Action::Call(_, _) => Action::Call(0, seq![]),
        Action::CallIndirect(_, _, _) => Action::CallIndirect(0, 0, seq![]),
        Action::InstResult(_) => Action::InstResult(0),
        _ => a,
    }
}

/// Whether a call on the builder is what a step comes to: it does the same, with
/// the same constants, on what the steps gave that the step speaks of. To make
/// something known that was declared goes by its number in the module.
pub open spec fn comes_to(a: Action, b: Action, m: Seq<int>) -> bool {
    &&& operands(b).len() == operands(a).len()
    &&& forall|i: int|
        0 <= i < operands(a).len() ==> #[trigger] operands(b)[i] == m[operands(a)[i]]
    &&& match a {
        Action::ImportFunction(..) => b is LinkFunction,
        Action::ImportData(_) => b is LinkData,
        _ => bare(b) == bare(a),
    }
}

/// A step keeps what it does, and the order of its operands, when it is called on
/// the builder.
pub proof fn law_renamed_does_the_same(a: Action, m: Seq<int>, log: Log)
    requires
        !on_module(a),
        plannable(a),
    ensures
        comes_to(a, rename(a, m, log), m),
{
    let b = rename(a, m, log);
    match a {
        Action::Call(f, xs) => {
            assert(operands(b).len() == operands(a).len());
            assert forall|i: int| 0 <= i < operands(a).len() implies #[trigger] operands(b)[i]
                == m[operands(a)[i]] by {
                if i > 0 {
                    assert(operands(a)[i] == xs[i - 1]);
                }
            }
        },
        Action::CallIndirect(s, x, xs) => {
            assert forall|i: int| 0 <= i < operands(a).len() implies #[trigger] operands(b)[i]
                == m[operands(a)[i]] by {
                if i > 1 {
                    assert(operands(a)[i] == xs[i - 2]);
                }
            }
        },
        _ => {},
    }
}

/// Whether a request to the module is what a step comes to: functions are called
/// under the planned symbol and signature, and are defined elsewhere; data is read
/// only, and is given the planned bytes.
pub open spec fn asks_for(a: Action, e: Entry, m: Seq<int>) -> bool {
    match (a, e) {
        (
            Action::DeclareFunction(n, p, t),
            Entry::DeclareFunction { name, visibility, signature, .. },
        ) => {
            &&& name == n
            &&& signature.params == p
            &&& signature.returns == seq![t]
            &&& signature.convention is SystemV
            &&& visibility is Import
        },
        (Action::DeclareData(n), Entry::DeclareData { name, visibility, writable, .. }) => {
            &&& name == n
            &&& !writable
            &&& visibility is Hidden
        },
        (Action::DefineData(d, b), Entry::DefineData { id, bytes, .. }) => {
            &&& id == m[d]
            &&& bytes == b
        },
        _ => false,
    }
}

/// How many of the steps before a place are requests to the module.
pub open spec fn asked_before(acts: Seq<Action>, i: int) -> int
    decreases i,
{
    if i <= 0 {
        0
    } else if on_module(acts[i - 1]) {
        asked_before(acts, i - 1) + 1
    } else {
        asked_before(acts, i - 1)
    }
}

proof fn lemma_asked(acts: Seq<Action>, more: Seq<Action>, i: int)
    requires
        i <= acts.len() <= more.len(),
        forall|j: int| 0 <= j < acts.len() ==> acts[j] == more[j],
    ensures
        asked_before(acts, i) == asked_before(more, i),
        0 <= i ==> 0 <= asked_before(acts, i) <= i,
    decreases i,
{
    if i > 0 {
        lemma_asked(acts, more, i - 1);
    }
}

proof fn lemma_asked_grows(acts: Seq<Action>, i: int, j: int)
    requires
        0 <= i <= j,
    ensures
        asked_before(acts, i) <= asked_before(acts, j) <= asked_before(acts, i) + j - i,
    decreases j - i,
{
    if i < j {
        lemma_asked_grows(acts, i, j - 1);
    }
}

/// Whether a step at a place speaks of earlier ones.
pub open spec fn looks_back(a: Action, i: int) -> bool {
    forall|k: int| 0 <= k < operands(a).len() ==> 0 <= #[trigger] operands(a)[k] < i
}

/// Whether a step is one that plans are made of, and not what one comes to.
pub open spec fn plannable(a: Action) -> bool {
    !(a is LinkFunction) && !(a is LinkData)
}

/// Whether every step of a plan speaks of earlier ones.
spec fn well_planned(acts: Seq<Action>) -> bool {
    forall|i: int|
        0 <= i < acts.len() && plannable(#[trigger] acts[i]) ==> looks_back(acts[i], i)
}

/// Whether all that a plan has made stands at a place of it.
spec fn in_place(acts: Seq<Action>) -> bool {
    let s = state(acts);
    &&& forall|x: int| #[trigger] s.values.contains_key(x) ==> 0 <= x < acts.len()
    &&& forall|x: int| #[trigger] s.blocks.contains_key(x) ==> 0 <= x < acts.len()
    &&& forall|x: int| #[trigger] s.slots.contains_key(x) ==> 0 <= x < acts.len()
    &&& forall|x: int| #[trigger] s.signatures.contains_key(x) ==> 0 <= x < acts.len()
    &&& forall|x: int| #[trigger] s.functions.contains_key(x) ==> 0 <= x < acts.len()
    &&& forall|x: int| #[trigger] s.globals.contains(x) ==> 0 <= x < acts.len()
    &&& forall|x: int| #[trigger] s.calls.contains_key(x) ==> 0 <= x < acts.len()
}

proof fn lemma_next_in_place(acts: Seq<Action>, a: Action)
    requires
        in_place(acts),
        state(acts).accepts(a),
    ensures
        in_place(acts.push(a)),
{
    reveal(state);
    assert(acts.push(a).drop_last() =~= acts);
    let (s, t) = (state(acts), state(acts.push(a)));
    assert(t == s.next(a, acts.len() as int));
}

proof fn lemma_looks_back(acts: Seq<Action>, a: Action)
    requires
        in_place(acts),
        state(acts).accepts(a),
        declared(acts, a),
        plannable(a),
    ensures
        looks_back(a, acts.len() as int),
{
    let s = state(acts);
    match a {
        Action::Call(f, xs) => {
            assert forall|k: int| 0 <= k < operands(a).len() implies 0 <= #[trigger] operands(a)[k]
                < acts.len() by {
                if k > 0 {
                    assert(s.has(xs[k - 1]));
                }
            }
        },
        Action::CallIndirect(f, x, xs) => {
            assert forall|k: int| 0 <= k < operands(a).len() implies 0 <= #[trigger] operands(a)[k]
                < acts.len() by {
                if k > 1 {
                    assert(s.has(xs[k - 2]));
                }
            }
        },
        _ => {},
    }
}

proof fn lemma_well_planned(acts: Seq<Action>)
    requires
        accepted(acts),
    ensures
        well_planned(acts),
        in_place(acts),
    decreases acts.len(),
{
    reveal(accepted);
    if acts.len() == 0 {
        reveal(state);
    } else {
        let before = acts.drop_last();
        lemma_well_planned(before);
        lemma_next_in_place(before, acts.last());
        assert(before.push(acts.last()) =~= acts);
        if plannable(acts.last()) {
            lemma_looks_back(before, acts.last());
        }
        assert forall|i: int| 0 <= i < acts.len() && plannable(#[trigger] acts[i]) implies {
            looks_back(acts[i], i)
        } by {
            if i < before.len() {
                assert(before[i] == acts[i]);
            }
        }
    }
}

/// Whether a call is what a step comes to, and gave what the step gives.
pub open spec fn called_for(a: Action, call: (Action, int), m: Seq<int>, i: int) -> bool {
    comes_to(a, call.0, m) && call.1 == m[i]
}

/// Code is what was planned, step by step and in order: every step is one call on
/// the builder or one request to the module, which does the same on what the
/// earlier steps gave, and gives what the step gives. Nothing else is done.
pub proof fn law_code_follows_plan(acts: Seq<Action>, m: Seq<int>, log: Log)
    requires
        m.len() == acts.len(),
        accepted(acts),
    ensures
        history(acts, m, log).len() == acts.len() - asked_before(acts, acts.len() as int),
        requests(acts, m).len() == asked_before(acts, acts.len() as int),
        forall|i: int|
            0 <= i < acts.len() && !on_module(#[trigger] acts[i]) && plannable(acts[i])
                ==> called_for(
                acts[i],
                history(acts, m, log)[i - asked_before(acts, i)],
                m,
                i,
            ),
        forall|i: int|
            0 <= i < acts.len() && on_module(#[trigger] acts[i]) ==> asks_for(
                acts[i],
                requests(acts, m)[asked_before(acts, i)],
                m,
            ),
{
    lemma_well_planned(acts);
    lemma_lengths(acts, m, log);
    assert forall|i: int|
        0 <= i < acts.len() && !on_module(#[trigger] acts[i]) && plannable(
            acts[i],
        ) implies called_for(
        acts[i],
        history(acts, m, log)[i - asked_before(acts, i)],
        m,
        i,
    ) by {
        lemma_call_at(acts, m, log, i);
    }
    assert forall|i: int| 0 <= i < acts.len() && on_module(#[trigger] acts[i]) implies asks_for(
        acts[i],
        requests(acts, m)[asked_before(acts, i)],
        m,
    ) by {
        lemma_request_at(acts, m, i);
    }
}

proof fn lemma_lengths(acts: Seq<Action>, m: Seq<int>, log: Log)
    requires
        m.len() == acts.len(),
    ensures
        history(acts, m, log).len() == acts.len() - asked_before(acts, acts.len() as int),
        requests(acts, m).len() == asked_before(acts, acts.len() as int),
    decreases acts.len(),
{
    if acts.len() > 0 {
        lemma_lengths(acts.drop_last(), m.drop_last(), log);
        lemma_asked(acts.drop_last(), acts, acts.len() - 1);
    }
}

proof fn lemma_call_at(acts: Seq<Action>, m: Seq<int>, log: Log, i: int)
    requires
        m.len() == acts.len(),
        well_planned(acts),
        0 <= i < acts.len(),
        !on_module(acts[i]),
        plannable(acts[i]),
    ensures
        called_for(acts[i], history(acts, m, log)[i - asked_before(acts, i)], m, i),
    decreases acts.len(),
{
    let (before, less) = (acts.drop_last(), m.drop_last());
    let n = before.len() as int;
    lemma_asked(before, acts, i);
    lemma_lengths(before, less, log);
    assert(looks_back(acts[i], i));
    if i < n {
        assert(before[i] == acts[i]);
        assert(well_planned(before)) by {
            assert forall|j: int| 0 <= j < before.len() && plannable(
                #[trigger] before[j],
            ) implies looks_back(before[j], j) by {
                assert(before[j] == acts[j]);
            }
        }
        lemma_call_at(before, less, log, i);
        lemma_asked_grows(before, i + 1, n);
        let call = history(before, less, log)[i - asked_before(before, i)];
        assert(history(acts, m, log)[i - asked_before(acts, i)] == call);
        lemma_more_given(acts[i], less, m, i, call.0);
    } else {
        let now = log + requests(before, less);
        assert(acts.last() == acts[n]);
        law_renamed_does_the_same(acts[n], less, now);
        assert(history(acts, m, log).last() == (rename(acts[n], less, now), m[n]));
        lemma_more_given(acts[n], less, m, n, rename(acts[n], less, now));
    }
}

proof fn lemma_request_at(acts: Seq<Action>, m: Seq<int>, i: int)
    requires
        m.len() == acts.len(),
        well_planned(acts),
        0 <= i < acts.len(),
        on_module(acts[i]),
    ensures
        asks_for(acts[i], requests(acts, m)[asked_before(acts, i)], m),
    decreases acts.len(),
{
    let (before, less) = (acts.drop_last(), m.drop_last());
    let n = before.len() as int;
    lemma_asked(before, acts, i);
    lemma_lengths(before, less, seq![]);
    assert(looks_back(acts[i], i));
    assert(acts[i] matches Action::DefineData(d, _) ==> operands(acts[i])[0] == d);
    if i < n {
        assert(before[i] == acts[i]);
        assert(well_planned(before)) by {
            assert forall|j: int| 0 <= j < before.len() && plannable(
                #[trigger] before[j],
            ) implies looks_back(before[j], j) by {
                assert(before[j] == acts[j]);
            }
        }
        lemma_request_at(before, less, i);
        lemma_asked_grows(before, i + 1, n);
        let e = requests(before, less)[asked_before(before, i)];
        assert(requests(acts, m)[asked_before(acts, i)] == e);
    } else {
        assert(acts.last() == acts[n]);
        assert(requests(acts, m).last() == request(acts[n], less, Some(m[n])));
    }
}

/// What comes later does not change what a step comes to.
proof fn lemma_more_given(a: Action, less: Seq<int>, m: Seq<int>, i: int, b: Action)
    requires
        less == m.drop_last(),
        i <= less.len(),
        m.len() > 0,
        comes_to(a, b, less),
        looks_back(a, i),
    ensures
        comes_to(a, b, m),
{
    assert forall|k: int| 0 <= k < operands(a).len() implies #[trigger] operands(b)[k]
        == m[operands(a)[k]] by {
        assert(operands(b)[k] == less[operands(a)[k]]);
        assert(0 <= operands(a)[k] < i);
    }
}

} // verus!
