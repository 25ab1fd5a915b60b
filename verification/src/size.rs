//! How large a function may be.
//!
//! Cranelift's register allocator stops at a million blocks and at sixteen
//! million machine instructions, and its frames at two gigabytes. What a plan
//! comes to in the machine is bounded here from above: every step by some
//! instructions and some for each of its arguments, and every way from one block
//! to another by the moves that each variable may need on it. The same bounds
//! hold of the values, blocks and instructions that the builder makes: the number
//! of each fits in thirty-two bits.

use vstd::prelude::*;

use crate::protocol::{placed, History};
use crate::step::{actions, Action, Step};

verus! {

/// What a plan comes to, at most.
pub struct Size {
    /// Machine instructions, but for those that move variables between blocks.
    pub cost: nat,
    /// Ways from one block to another.
    pub edges: nat,
    pub blocks: nat,
    /// Bytes on the stack.
    pub stack: nat,
    pub variables: nat,
}

/// The size of nothing.
pub open spec fn nothing() -> Size {
    Size { cost: 0, edges: 0, blocks: 0, stack: 0, variables: 0 }
}

/// The machine instructions of one step, at most. A step that places none counts
/// for one, since the builder makes something of it.
pub open spec fn cost(a: Action) -> nat {
    match a {
        Action::DeclareFunction(..) | Action::DeclareData(_) | Action::DefineData(..) => 0,
        Action::Begin(params, _) => 64 + 4 * params.len(),
        Action::AppendFunctionParams(_) => 0x1_0000,
        Action::Call(_, xs) => 64 + 4 * xs.len(),
        Action::CallIndirect(_, _, xs) => 64 + 4 * xs.len(),
        _ => if placed(a) is Nothing {
            1
        } else {
            64
        },
    }
}

/// The ways from one block to another that a step makes.
pub open spec fn edges(a: Action) -> nat {
    match a {
        Action::Brz(..) | Action::Jump(..) => 1,
        Action::TrapzStackOverflow(_) => 2,
        _ => 0,
    }
}

/// The blocks that a step makes.
pub open spec fn blocks(a: Action) -> nat {
    match a {
        Action::CreateBlock => 1,
        Action::TrapzStackOverflow(_) => 2,
        _ => 0,
    }
}

/// The bytes on the stack that a step takes.
pub open spec fn stack(a: Action) -> nat {
    match a {
        Action::CreateStackSlot(n) => n as nat + 8,
        _ => 0,
    }
}

/// With one more step.
pub open spec fn grow(s: Size, a: Action) -> Size {
    Size {
        cost: s.cost + cost(a),
        edges: s.edges + edges(a),
        blocks: s.blocks + blocks(a),
        stack: s.stack + stack(a),
        variables: s.variables + if a is DeclareVar {
            1nat
        } else {
            0
        },
    }
}

/// The size of some steps.
pub open spec fn plan_size(acts: Seq<Action>) -> Size
    decreases acts.len(),
{
    if acts.len() == 0 {
        nothing()
    } else {
        grow(plan_size(acts.drop_last()), acts.last())
    }
}

/// The size of some calls on a builder.
pub open spec fn body_size(h: History) -> Size
    decreases h.len(),
{
    if h.len() == 0 {
        nothing()
    } else {
        grow(body_size(h.drop_last()), h.last().0)
    }
}

/// Whether a function is small enough to be compiled.
pub open spec fn fits(s: Size) -> bool {
    &&& s.cost + 4 * ((s.edges + s.blocks) * (s.variables + 2)) < 0x100_0000
    &&& s.blocks + 2 * s.edges < 0x10_0000
    &&& s.stack < 0x4000_0000
}

/// A plan does not get smaller, and each of its variables costs something.
proof fn lemma_grows(acts: Seq<Action>, i: int)
    requires
        0 <= i <= acts.len(),
    ensures
        plan_size(acts.take(i)).cost <= plan_size(acts).cost,
        plan_size(acts.take(i)).edges <= plan_size(acts).edges,
        plan_size(acts.take(i)).blocks <= plan_size(acts).blocks,
        plan_size(acts.take(i)).stack <= plan_size(acts).stack,
        plan_size(acts).variables <= plan_size(acts).cost,
    decreases acts.len(),
{
    if acts.len() > 0 {
        if i < acts.len() {
            lemma_grows(acts.drop_last(), i);
            assert(acts.drop_last().take(i) =~= acts.take(i));
        } else {
            lemma_grows(acts.drop_last(), i - 1);
            assert(acts.take(i) =~= acts);
        }
    } else {
        assert(acts.take(i) =~= acts);
    }
}

/// A function that fits did so all the time that it was built.
pub proof fn lemma_fits_before(acts: Seq<Action>, i: int)
    requires
        0 <= i <= acts.len(),
        fits(plan_size(acts)),
    ensures
        fits(plan_size(acts.take(i))),
    decreases acts.len(),
{
    if i == acts.len() {
        assert(acts.take(i) =~= acts);
    } else {
        let less = plan_size(acts.drop_last());
        let all = plan_size(acts);
        assert((less.edges + less.blocks) * (less.variables + 2) <= (all.edges + all.blocks) * (
        all.variables + 2)) by (nonlinear_arith)
            requires
                less.edges <= all.edges,
                less.blocks <= all.blocks,
                less.variables <= all.variables,
        ;
        lemma_fits_before(acts.drop_last(), i);
        assert(acts.drop_last().take(i) =~= acts.take(i));
    }
}

/// The cost of some arguments, unless it is too much for a function.
fn arguments_cost(count: usize) -> (r: Option<u64>)
    ensures
        match r {
            Some(c) => c == 64 + 4 * count && c < 0x100_0000,
            None => 64 + 4 * count >= 0x100_0000,
        },
{
    if count < 0x3f_fff0 {
        Some(64 + 4 * (count as u64))
    } else {
        None
    }
}

/// The cost of a step, unless it is too much for a function.
fn step_cost(step: &Step) -> (r: Option<u64>)
    ensures
        match r {
            Some(c) => c == cost(step@) && c < 0x100_0000,
            None => cost(step@) >= 0x100_0000,
        },
{
    match step {
        Step::DeclareFunction(..) | Step::DeclareData(_) | Step::DefineData(..) => Some(0),
        Step::Begin(params, _) => arguments_cost(params.len()),
        Step::AppendFunctionParams(_) => Some(0x1_0000),
        Step::Call(_, xs) => arguments_cost(xs.len()),
        Step::CallIndirect(_, _, xs) => arguments_cost(xs.len()),
        Step::CreateBlock | Step::SwitchToBlock(_) | Step::AppendBlockParam(..)
        | Step::BlockParam(..) | Step::DeclareVar(..) | Step::DefVar(..) | Step::UseVar(_)
        | Step::ImportFunction(..) | Step::ImportData(_) | Step::ImportSignature(..)
        | Step::CreateStackSlot(_) | Step::InstResult(_) | Step::SealAllBlocks
        | Step::Finalize => Some(1),
        _ => Some(64),
    }
}

/// Whether a function is small enough to be compiled.
pub fn plan_fits(steps: &Vec<Step>) -> (r: bool)
    ensures
        r == fits(plan_size(actions(steps@))),
{
    let ghost acts = actions(steps@);
    let mut total: u64 = 0;
    let mut ways: u64 = 0;
    let mut parts: u64 = 0;
    let mut bytes: u64 = 0;
    let mut count: u64 = 0;
    let mut i: usize = 0;
    assert(acts.take(0) =~= seq![]);
    while i < steps.len()
        invariant
            i <= steps.len(),
            acts == actions(steps@),
            plan_size(acts.take(i as int)) == (Size {
                cost: total as nat,
                edges: ways as nat,
                blocks: parts as nat,
                stack: bytes as nat,
                variables: count as nat,
            }),
            total < 0x100_0000,
            ways < 0x10_0000,
            parts < 0x10_0000,
            bytes < 0x4000_0000,
            count <= total,
        decreases steps.len() - i,
    {
        proof {
            assert(acts.take(i + 1).drop_last() =~= acts.take(i as int));
            assert(acts.take(i + 1).last() == steps@[i as int]@);
            lemma_grows(acts, i + 1);
            lemma_grows(acts.take(i + 1), i + 1);
        }
        let step = &steps[i];
        match step_cost(step) {
            Some(c) => total = total + c,
            None => return false,
        }
        match step {
            Step::Brz(_, _) => ways = ways + 1,
            Step::Jump(_, _) => ways = ways + 1,
            Step::CreateBlock => parts = parts + 1,
            Step::TrapzStackOverflow(_) => {
                ways = ways + 2;
                parts = parts + 2;
            },
            Step::CreateStackSlot(n) => bytes = bytes + (*n as u64) + 8,
            Step::DeclareVar(_, _) => count = count + 1,
            _ => {},
        }
        if total >= 0x100_0000 || ways >= 0x10_0000 || parts >= 0x10_0000 || bytes >= 0x4000_0000 {
            return false;
        }
        i += 1;
    }
    assert(acts.take(i as int) =~= acts);
    assert((ways + parts) * (count + 2) <= 0x20_0000 * 0x100_0002) by (nonlinear_arith)
        requires
            ways < 0x10_0000,
            parts < 0x10_0000,
            count <= 0x100_0000,
    ;
    total + 4 * ((ways + parts) * (count + 2)) < 0x100_0000 && parts + 2 * ways < 0x10_0000
}

/// Whether a step is one of those that small functions are made of: it passes few
/// arguments, and takes little of the stack. Parameters are taken by the third step.
pub open spec fn small(a: Action, i: int) -> bool {
    match a {
        Action::AppendFunctionParams(_) => i == 2,
        Action::Begin(xs, _) => xs.len() <= 64,
        Action::Call(_, xs) | Action::CallIndirect(_, _, xs) => xs.len() <= 64,
        Action::CreateStackSlot(n) => n <= 0x1000,
        _ => true,
    }
}

proof fn lemma_small(acts: Seq<Action>)
    requires
        forall|i: int| 0 <= i < acts.len() ==> small(#[trigger] acts[i], i),
    ensures
        plan_size(acts).cost <= 320 * acts.len() + if acts.len() > 2 {
            0x1_0000int
        } else {
            0
        },
        plan_size(acts).edges <= 2 * acts.len(),
        plan_size(acts).blocks <= 2 * acts.len(),
        plan_size(acts).stack <= 0x1008 * acts.len(),
        plan_size(acts).variables <= acts.len(),
    decreases acts.len(),
{
    if acts.len() > 0 {
        let before = acts.drop_last();
        assert forall|i: int| 0 <= i < before.len() implies small(#[trigger] before[i], i) by {
            assert(before[i] == acts[i]);
        }
        lemma_small(before);
        assert(small(acts[acts.len() - 1], acts.len() - 1));
    }
}

/// Small functions are never too large: those of up to a thousand small steps fit.
pub proof fn law_small_plans_fit(acts: Seq<Action>)
    requires
        acts.len() <= 1000,
        forall|i: int| 0 <= i < acts.len() ==> small(#[trigger] acts[i], i),
    ensures
        fits(plan_size(acts)),
{
    lemma_small(acts);
    let s = plan_size(acts);
    let (x, y) = ((s.edges + s.blocks) as int, (s.variables + 2) as int);
    assert(x * y <= 4000 * 1002) by (nonlinear_arith)
        requires
            0 <= x <= 4000,
            0 <= y <= 1002,
    ;
}

} // verus!
