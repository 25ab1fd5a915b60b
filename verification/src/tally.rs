//! How often things happen in what an expression is lowered to.

use vstd::prelude::*;

use crate::ast::{type_of, LValue, SExpr, Type};
use crate::env::EnvView;
use crate::ir::IrType;
use crate::lower::{
    builtin, cond_blocks, env_after, env_after_all, env_after_arms, ir, last, lower, lower_all,
    lower_arms, lower_builtin, lower_place, lower_text, size,
};
use crate::prefix::law_lowering_continues;
use crate::step::Action;

verus! {

/// How many stack slots and data objects something makes, and how often it goes
/// to a block with a value.
pub struct Tally {
    pub slots: int,
    pub texts: int,
    pub exits: int,
}

impl Tally {
    pub open spec fn plus(self, other: Tally) -> Tally {
        Tally {
            slots: self.slots + other.slots,
            texts: self.texts + other.texts,
            exits: self.exits + other.exits,
        }
    }
}

/// Nothing of all that.
pub open spec fn nothing() -> Tally {
    Tally { slots: 0, texts: 0, exits: 0 }
}

/// What an action does of it, with respect to the block `b`.
pub open spec fn tally_one(a: Action, b: int) -> Tally {
    match a {
        Action::CreateStackSlot(_) => Tally { slots: 1, ..nothing() },
        Action::DeclareData(_) => Tally { texts: 1, ..nothing() },
        Action::Jump(to, Some(_)) => if to == b {
            Tally { exits: 1, ..nothing() }
        } else {
            nothing()
        },
        _ => nothing(),
    }
}

/// What a plan does of it.
pub open spec fn tally(acts: Seq<Action>, b: int) -> Tally
    decreases acts.len(),
{
    if acts.len() == 0 {
        nothing()
    } else {
        tally(acts.drop_last(), b).plus(tally_one(acts.last(), b))
    }
}

/// What is in an expression: a text makes a data object and a slot, what is
/// reserved on the stack makes a slot, with another one for a slice, and a break
/// leaves the loop around it, which is not one that ends inside the expression.
pub open spec fn contains(e: SExpr<'_>) -> Tally
    decreases e,
{
    match e {
        SExpr::Str { .. } => Tally { slots: 1, texts: 1, exits: 0 },
        SExpr::Sequence { values, .. } => contains_all(values@),
        SExpr::Cond { values, elsy, .. } => match elsy {
            Some(e) => contains_arms(values@).plus(contains(*e)),
            None => contains_arms(values@),
        },
        SExpr::Loop { value, .. } => Tally { exits: 0, ..contains(*value) },
        SExpr::Break { value, .. } => match value {
            Some(e) => contains(*e).plus(Tally { exits: 1, ..nothing() }),
            None => Tally { exits: 1, ..nothing() },
        },
        SExpr::Type { value, .. } => contains(*value),
        SExpr::FuncCall { meta, func, values } => contains_all(values@).plus(
            match *func {
                SExpr::Symbol { value: name, .. } => if name@ == "alloca"@ {
                    reserved(meta.type_)
                } else {
                    nothing()
                },
                _ => nothing(),
            },
        ),
        SExpr::Declare { value, .. } => contains(*value),
        SExpr::Assign { lvalue, value, .. } => contains(*value).plus(contains_place(lvalue)),
        SExpr::Attribute { top, .. } => contains(*top),
        _ => nothing(),
    }
}

/// What is made to reserve something of a type on the stack.
pub open spec fn reserved(t: Type<'_>) -> Tally {
    match t {
        Type::Pointer(..) => Tally { slots: 1, ..nothing() },
        Type::Slice(..) => Tally { slots: 2, ..nothing() },
        _ => nothing(),
    }
}

/// What is in several expressions.
pub open spec fn contains_all(es: Seq<SExpr<'_>>) -> Tally
    decreases es,
{
    if es.len() == 0 {
        nothing()
    } else {
        contains_all(es.drop_last()).plus(contains(es[es.len() - 1]))
    }
}

/// What is in some conditions and their bodies.
pub open spec fn contains_arms(arms: Seq<(SExpr<'_>, SExpr<'_>)>) -> Tally
    decreases arms,
{
    if arms.len() == 0 {
        nothing()
    } else {
        contains_arms(arms.drop_last()).plus(contains(arms[arms.len() - 1].0)).plus(
            contains(arms[arms.len() - 1].1),
        )
    }
}

/// What is in a place.
pub open spec fn contains_place(place: LValue<'_>) -> Tally
    decreases place,
{
    match place {
        LValue::Deref(v) => contains_place(*v),
        LValue::Get(_, v, i) => contains(*i).plus(contains_place(*v)),
        _ => nothing(),
    }
}

/// Whether a plan goes on with what something contains: in a loop that ends at
/// `brk`, its breaks are jumps to that block, and no others.
pub open spec fn adds(
    from: Seq<Action>,
    to: Seq<Action>,
    b: int,
    brk: Option<int>,
    t: Tally,
) -> bool {
    &&& to.len() >= from.len()
    &&& tally(to, b).slots == tally(from, b).slots + t.slots
    &&& tally(to, b).texts == tally(from, b).texts + t.texts
    &&& brk == Some(b) ==> tally(to, b).exits == tally(from, b).exits + t.exits
    &&& brk is Some && brk->0 != b ==> tally(to, b).exits == tally(from, b).exits
}

/// One more action.
pub broadcast proof fn lemma_pushes(acts: Seq<Action>, a: Action, b: int)
    ensures
        #[trigger] tally(acts.push(a), b) == tally(acts, b).plus(tally_one(a, b)),
{
    assert(acts.push(a).drop_last() =~= acts);
}

pub proof fn lemma_blocks_add(count: nat, acts: Seq<Action>, b: int)
    ensures
        tally(cond_blocks(count, acts), b) == tally(acts, b),
        cond_blocks(count, acts).len() == acts.len() + 2 * count,
    decreases count,
{
    broadcast use lemma_pushes;

    if count > 0 {
        lemma_blocks_add((count - 1) as nat, acts, b);
    }
}

/// To lower an expression makes the slots and the data objects that it contains,
/// and goes to the end of the loop around it as often as it contains a break that
/// leaves that loop.
pub proof fn law_lowering_adds(
    e: SExpr<'_>,
    acts: Seq<Action>,
    env: EnvView,
    brk: Option<int>,
    b: int,
)
    requires
        b < acts.len(),
    ensures
        adds(acts, lower(e, acts, env, brk).acts, b, brk, contains(e)),
    decreases e,
{
    broadcast use lemma_pushes;

    let n = acts.len() as int;
    match e {
        SExpr::Symbol { meta, value } => {},
        SExpr::Str { meta, value } => {
            lemma_text(ir(meta.type_), value@, env.next(), acts, b);
        },
        SExpr::Sequence { values, .. } => lemma_all_add(values@, acts, env.enter(), brk, b),
        SExpr::Cond { meta, values, elsy } => {
            let count = values@.len();
            lemma_blocks_add(count, acts, b);
            let acts1 = cond_blocks(count, acts).push(Action::CreateBlock).push(
                Action::AppendBlockParam(n + 2 * count, ir(meta.type_)),
            );
            lemma_arms_add(values@, acts1, env, brk, n, n + 2 * count, b);
            let acts2 = lower_arms(values@, acts1, env, brk, n, n + 2 * count);
            match elsy {
                Some(e) => law_lowering_adds(
                    *e,
                    acts2,
                    env_after_arms(values@, env).enter(),
                    brk,
                    b,
                ),
                None => {},
            }
        },
        SExpr::Loop { meta, value } => {
            let acts1 = acts.push(Action::CreateBlock).push(Action::CreateBlock).push(
                Action::AppendBlockParam(n + 1, ir(meta.type_)),
            ).push(Action::Jump(n, None)).push(Action::SwitchToBlock(n));
            law_lowering_adds(*value, acts1, env.enter(), Some(n + 1), b);
        },
        SExpr::Break { value, .. } => match value {
            Some(e) => law_lowering_adds(*e, acts, env, brk, b),
            None => {},
        },
        SExpr::Type { value, .. } => law_lowering_adds(*value, acts, env, brk, b),
        SExpr::FuncCall { meta, func, values } => {
            lemma_all_add(values@, acts, env, brk, b);
            lemma_call_adds(e, acts, env, brk, b);
        },
        SExpr::Declare { meta, value, .. } => law_lowering_adds(
            *value,
            acts.push(Action::DeclareVar(env.next(), ir(meta.type_))),
            env.declare(ir(meta.type_)),
            brk,
            b,
        ),
        SExpr::Assign { lvalue, value, .. } => {
            law_lowering_adds(*value, acts, env, brk, b);
            let v = lower(*value, acts, env, brk);
            lemma_place_adds(lvalue, v.acts, env_after(*value, env), brk, b);
        },
        SExpr::Attribute { top, .. } => law_lowering_adds(*top, acts, env, brk, b),
        _ => {},
    }
}

proof fn lemma_text(t: IrType, text: Seq<char>, number: int, acts: Seq<Action>, b: int)
    ensures
        tally(lower_text(t, text, number, acts).acts, b) == tally(acts, b).plus(
            Tally { slots: 1, texts: 1, exits: 0 },
        ),
{
    broadcast use lemma_pushes;

}

proof fn lemma_call_adds(
    e: SExpr<'_>,
    acts: Seq<Action>,
    env: EnvView,
    brk: Option<int>,
    b: int,
)
    requires
        e is FuncCall,
        adds(
            acts,
            lower_all(e->FuncCall_values@, acts, env, brk).acts,
            b,
            brk,
            contains_all(e->FuncCall_values@),
        ),
    ensures
        adds(acts, lower(e, acts, env, brk).acts, b, brk, contains(e)),
{
    broadcast use lemma_pushes;

    reveal_strlit("alloca");
    reveal_strlit("syscall");
    reveal_strlit("cast");
    reveal_strlit("+");
    reveal_strlit("-");
    reveal_strlit("*");
    reveal_strlit("/");
    reveal_strlit("%");
    match e {
        SExpr::FuncCall { meta, func, values } => {
            let args = lower_all(values@, acts, env, brk);
            match *func {
                SExpr::Symbol { meta: callee, value: name } => match builtin(name@) {
                    Some(op) => {
                        if op is Alloca {
                            assert(name@ == "alloca"@);
                        } else {
                            assert(name@ != "alloca"@) by {
                                assert("alloca"@[0] == 'a');
                                assert("syscall"@[0] == 's');
                                assert("cast"@[0] == 'c');
                                assert("+"@[0] == '+');
                                assert("-"@[0] == '-');
                                assert("*"@[0] == '*');
                                assert("/"@[0] == '/');
                                assert("%"@[0] == '%');
                            }
                        }
                        let r = lower_builtin(
                            op,
                            meta.type_,
                            type_of(values@[0]),
                            args.acts,
                            args.values,
                        );
                        assert(r.acts.len() >= args.acts.len());
                    },
                    None => {
                        assert(name@ != "alloca"@);
                    },
                },
                _ => {},
            }
        },
        _ => {},
    }
}

pub proof fn lemma_all_add(
    es: Seq<SExpr<'_>>,
    acts: Seq<Action>,
    env: EnvView,
    brk: Option<int>,
    b: int,
)
    requires
        b < acts.len(),
    ensures
        adds(acts, lower_all(es, acts, env, brk).acts, b, brk, contains_all(es)),
    decreases es,
{
    if es.len() > 0 {
        lemma_all_add(es.drop_last(), acts, env, brk, b);
        law_lowering_adds(
            es[es.len() - 1],
            lower_all(es.drop_last(), acts, env, brk).acts,
            env_after_all(es.drop_last(), env),
            brk,
            b,
        );
    }
}

pub proof fn lemma_arms_add(
    arms: Seq<(SExpr<'_>, SExpr<'_>)>,
    acts: Seq<Action>,
    env: EnvView,
    brk: Option<int>,
    first: int,
    end: int,
    b: int,
)
    requires
        b < acts.len(),
        end != b,
    ensures
        adds(
            acts,
            lower_arms(arms, acts, env, brk, first, end),
            b,
            brk,
            contains_arms(arms),
        ),
    decreases arms,
{
    broadcast use lemma_pushes;

    if arms.len() > 0 {
        let i = arms.len() - 1;
        let (other, then) = (first + 2 * i, first + 2 * i + 1);
        lemma_arms_add(arms.drop_last(), acts, env, brk, first, end, b);
        let before = lower_arms(arms.drop_last(), acts, env, brk, first, end);
        let inner = env_after_arms(arms.drop_last(), env).enter();
        law_lowering_adds(arms[i].0, before, inner, brk, b);
        let cond = lower(arms[i].0, before, inner, brk);
        law_lowering_adds(
            arms[i].1,
            cond.acts.push(Action::Brz(cond.value, other)).push(Action::Jump(then, None)).push(
                Action::SwitchToBlock(then),
            ),
            env_after(arms[i].0, inner),
            brk,
            b,
        );
    }
}

pub proof fn lemma_place_adds(
    place: LValue<'_>,
    acts: Seq<Action>,
    env: EnvView,
    brk: Option<int>,
    b: int,
)
    requires
        b < acts.len(),
    ensures
        adds(acts, lower_place(place, acts, env, brk).acts, b, brk, contains_place(place)),
    decreases place,
{
    broadcast use lemma_pushes;

    match place {
        LValue::Deref(v) => lemma_place_adds(*v, acts, env, brk, b),
        LValue::Get(t, v, i) => {
            law_lowering_adds(*i, acts, env, brk, b);
            let index = lower(*i, acts, env, brk);
            lemma_place_adds(
                *v,
                index.acts.push(Action::ImulImm(index.value, size(t))),
                env_after(*i, env),
                brk,
                b,
            );
        },
        _ => {},
    }
}

/// A loop ends at a block of its own, also inside another loop: its value is the
/// parameter of a block that it made itself, and it goes there with a value as
/// often as its body contains a break that is in no loop further in. To the end of
/// a loop around it, it does not go.
pub proof fn law_breaks_end_their_own_loop(
    e: SExpr<'_>,
    acts: Seq<Action>,
    env: EnvView,
    brk: Option<int>,
)
    requires
        e is Loop,
        brk is Some ==> 0 <= brk->0 < acts.len(),
    ensures
        ({
            let low = lower(e, acts, env, brk);
            let end = low.acts[low.value]->BlockParam_0;
            &&& low.acts[low.value] == Action::BlockParam(end, 0)
            &&& acts.len() <= end < low.acts.len()
            &&& low.acts[end] is CreateBlock
            &&& tally(low.acts, end).exits == tally(acts, end).exits + contains(
                *e->Loop_value,
            ).exits
            &&& brk is Some ==> tally(low.acts, brk->0).exits == tally(acts, brk->0).exits
        }),
{
    broadcast use lemma_pushes;

    let n = acts.len() as int;
    match e {
        SExpr::Loop { meta, value } => {
            let acts1 = acts.push(Action::CreateBlock).push(Action::CreateBlock).push(
                Action::AppendBlockParam(n + 1, ir(meta.type_)),
            ).push(Action::Jump(n, None)).push(Action::SwitchToBlock(n));
            law_lowering_adds(*value, acts1, env.enter(), Some(n + 1), n + 1);
            law_lowering_continues(*value, acts1, env.enter(), Some(n + 1));
            let low = lower(e, acts, env, brk);
            let body = lower(*value, acts1, env.enter(), Some(n + 1));
            assert(body.acts[n + 1] == acts1[n + 1]);
            assert(low.acts[n + 1] == body.acts[n + 1]);
            if brk is Some {
                law_lowering_adds(*value, acts1, env.enter(), Some(n + 1), brk->0);
            }
        },
        _ => {},
    }
}

} // verus!
