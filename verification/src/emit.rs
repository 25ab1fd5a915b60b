//! Replaying planned steps on a function builder and a module.

use vstd::prelude::*;

use cranelift::prelude::{FunctionBuilder, Signature};
use cranelift_module::ModuleError;
use cranelift_object::ObjectModule;

use crate::answers::{all_rightly, lemma_rightly_push, rightly};
use crate::clif::{
    builder_code, called, clif_type, new_signature, push_param, push_return, signature_view, takes,
};
use crate::clif_builder;
use crate::clif_module::{
    answer, classify, declare_data, declare_function, define_data, link_data, link_function,
    module_log, module_target, refused,
};
use crate::ir::IrType;
use crate::module_log::{
    contents_refusal, data_refusal, follows, function_refusal, has_data, has_function,
    lemma_log_push, lemma_orderly_push, lemma_signature_of, orderly, Log, ModuleFailure, Visibility,
    lemma_links_push, links_known,
};
use crate::protocol::{accepted, declared, lawful, replay, state, unstarted, Code};
use crate::renaming::{
    call_signature, given, history, lemma_request_kept, lemma_step_kept, lemma_taken, linkable,
    module_knows, on_module, refers, rename, request, requests, same, settled,
};
use crate::size::{body_size, fits, lemma_fits_before, plan_size};
use crate::step::{actions, ints, Action, BinaryOp, Step};

verus! {

/// Why a request is refused, if it is.
pub open spec fn request_refusal(log: Log, a: Action, m: Seq<int>) -> Option<ModuleFailure> {
    match a {
        Action::DeclareFunction(n, p, t) => function_refusal(log, n, call_signature(p, t)),
        Action::DeclareData(n) => data_refusal(log, n),
        Action::DefineData(d, _) => contents_refusal(log, m[d]),
        _ => None,
    }
}

/// Whether some steps were replayed up to a request that was refused, where `m`
/// holds what the steps before it gave.
pub open spec fn stopped_at(
    acts: Seq<Action>,
    m: Seq<int>,
    before: Log,
    after: Log,
    e: ModuleFailure,
) -> bool {
    let now = before + requests(acts.take(m.len() as int), m);
    &&& m.len() < acts.len()
    &&& on_module(acts[m.len() as int])
    &&& request_refusal(now, acts[m.len() as int], m) == Some(e)
    &&& after == now.push(request(acts[m.len() as int], m, None))
}

/// A signature that takes and returns what is given.
fn make_signature(params: &Vec<IrType>, ret: IrType) -> (s: Signature)
    ensures
        signature_view(s) == call_signature(params@, ret),
{
    let mut s = new_signature();
    let mut i: usize = 0;
    while i < params.len()
        invariant
            i <= params.len(),
            signature_view(s).params == params@.take(i as int),
            signature_view(s).returns == Seq::<IrType>::empty(),
            signature_view(s).convention == call_signature(params@, ret).convention,
        decreases params.len() - i,
    {
        push_param(&mut s, clif_type(params[i]));
        assert(params@.take(i + 1) =~= params@.take(i as int).push(params@[i as int]));
        i += 1;
    }
    push_return(&mut s, clif_type(ret));
    assert(params@.take(i as int) =~= params@);
    assert(signature_view(s).returns =~= seq![ret]);
    s
}

/// What was given at some places.
fn look_up(m: &Vec<usize>, xs: &Vec<usize>) -> (r: Vec<usize>)
    requires
        forall|i: int| 0 <= i < xs@.len() ==> #[trigger] xs@[i] < m@.len(),
    ensures
        ints(r@) == given(ints(xs@), ints(m@)),
{
    let mut r: Vec<usize> = Vec::new();
    let mut i: usize = 0;
    while i < xs.len()
        invariant
            i <= xs.len(),
            forall|j: int| 0 <= j < xs@.len() ==> #[trigger] xs@[j] < m@.len(),
            r@.len() == i,
            forall|j: int| 0 <= j < i ==> #[trigger] r@[j] == m@[xs@[j] as int],
        decreases xs.len() - i,
    {
        r.push(m[xs[i]]);
        i += 1;
    }
    assert(ints(r@) =~= given(ints(xs@), ints(m@)));
    r
}

/// Replays an instruction with two operands.
fn emit_binary(op: BinaryOp, x: usize, y: usize, b: &mut FunctionBuilder<'_>) -> (r: usize)
    requires
        takes(builder_code(*old(b)), Action::Binary(op, x as int, y as int)),
    ensures
        called(
            builder_code(*old(b)),
            Action::Binary(op, x as int, y as int),
            r,
            builder_code(*final(b)),
        ),
{
    match op {
        BinaryOp::Iadd => clif_builder::iadd(b, x, y),
        BinaryOp::Isub => clif_builder::isub(b, x, y),
        BinaryOp::Imul => clif_builder::imul(b, x, y),
        BinaryOp::Udiv => clif_builder::udiv(b, x, y),
        BinaryOp::Sdiv => clif_builder::sdiv(b, x, y),
        BinaryOp::Urem => clif_builder::urem(b, x, y),
        BinaryOp::Srem => clif_builder::srem(b, x, y),
        BinaryOp::Fadd => clif_builder::fadd(b, x, y),
        BinaryOp::Fsub => clif_builder::fsub(b, x, y),
        BinaryOp::Fmul => clif_builder::fmul(b, x, y),
        BinaryOp::Fdiv => clif_builder::fdiv(b, x, y),
        BinaryOp::Band => clif_builder::band(b, x, y),
        BinaryOp::Bor => clif_builder::bor(b, x, y),
        BinaryOp::Bxor => clif_builder::bxor(b, x, y),
        BinaryOp::Ishl => clif_builder::ishl(b, x, y),
        BinaryOp::Ushr => clif_builder::ushr(b, x, y),
    }
}

/// Replays a step on the builder, where `m` holds what the steps before it gave.
#[verifier::spinoff_prover]
fn emit_call(
    step: &Step,
    m: &Vec<usize>,
    b: &mut FunctionBuilder<'_>,
    module: &ObjectModule,
) -> (r: usize)
    requires
        !on_module(step@),
        !(step@ is Begin),
        refers(step@, ints(m@)),
        linkable(step@, ints(m@), module_log(*module)),
        takes(builder_code(*old(b)), rename(step@, ints(m@), module_log(*module))),
    ensures
        called(
            builder_code(*old(b)),
            rename(step@, ints(m@), module_log(*module)),
            r,
            builder_code(*final(b)),
        ),
{
    match step {
        Step::CreateBlock => clif_builder::create_block(b),
        Step::SwitchToBlock(x) => {
            clif_builder::switch_to_block(b, m[*x]);
            0
        },
        Step::AppendFunctionParams(x) => {
            clif_builder::append_function_params(b, m[*x]);
            0
        },
        Step::AppendBlockParam(x, t) => clif_builder::append_block_param(b, m[*x], clif_type(*t)),
        Step::BlockParam(x, i) => clif_builder::block_param(b, m[*x], *i),
        Step::DeclareVar(v, t) => {
            clif_builder::declare_var(b, *v, clif_type(*t));
            0
        },
        Step::DefVar(v, x) => {
            clif_builder::def_var(b, *v, m[*x]);
            0
        },
        Step::UseVar(v) => clif_builder::use_var(b, *v),
        Step::CreateStackSlot(n) => clif_builder::create_stack_slot(b, *n),
        Step::ImportSignature(p, t) => {
            let s = make_signature(p, *t);
            clif_builder::import_signature(b, s)
        },
        Step::ImportFunction(f, _) => link_function(b, module, m[*f]),
        Step::ImportData(d) => link_data(b, module, m[*d]),
        Step::Bconst(t, c) => clif_builder::bconst(b, clif_type(*t), *c),
        Step::Iconst(t, c) => clif_builder::iconst(b, clif_type(*t), *c),
        Step::F32const(c) => clif_builder::f32const(b, *c),
        Step::F64const(c) => clif_builder::f64const(b, *c),
        Step::FuncAddr(t, f) => clif_builder::func_addr(b, clif_type(*t), m[*f]),
        Step::GlobalValue(t, d) => clif_builder::global_value(b, clif_type(*t), m[*d]),
        Step::StackStore(x, s, o) => {
            clif_builder::stack_store(b, m[*x], m[*s], *o);
            0
        },
        Step::StackAddr(t, s, o) => clif_builder::stack_addr(b, clif_type(*t), m[*s], *o),
        Step::Binary(op, x, y) => emit_binary(*op, m[*x], m[*y], b),
        Step::ImulImm(x, c) => clif_builder::imul_imm(b, m[*x], *c),
        Step::CompareInt(c, x, y) => clif_builder::compare_ints(b, *c, m[*x], m[*y]),
        Step::CompareIntImm(c, x, k) => clif_builder::compare_imm(b, *c, m[*x], *k),
        Step::FloatLessThan(x, y) => clif_builder::float_less_than(b, m[*x], m[*y]),
        Step::TrapzStackOverflow(x) => {
            clif_builder::trapz_stack_overflow(b, m[*x]);
            0
        },
        Step::Load(t, p, o) => clif_builder::load(b, clif_type(*t), m[*p], *o),
        Step::Store(x, p, o) => {
            clif_builder::store(b, m[*x], m[*p], *o);
            0
        },
        Step::Brz(c, x) => {
            clif_builder::brz(b, m[*c], m[*x]);
            0
        },
        Step::Jump(x, Some(v)) => {
            clif_builder::jump(b, m[*x], Some(m[*v]));
            0
        },
        Step::Jump(x, None) => {
            clif_builder::jump(b, m[*x], None);
            0
        },
        Step::Return(x) => {
            clif_builder::return_value(b, m[*x]);
            0
        },
        Step::Call(f, xs) => {
            let ghost places = ints(xs@);
            assert forall|i: int| 0 <= i < xs@.len() implies #[trigger] xs@[i] < m@.len() by {
                assert(places[i] == xs@[i]);
            }
            let args = look_up(m, xs);
            clif_builder::call(b, m[*f], &args)
        },
        Step::CallIndirect(s, f, xs) => {
            let ghost places = ints(xs@);
            assert forall|i: int| 0 <= i < xs@.len() implies #[trigger] xs@[i] < m@.len() by {
                assert(places[i] == xs@[i]);
            }
            let args = look_up(m, xs);
            clif_builder::call_indirect(b, m[*s], m[*f], &args)
        },
        Step::InstResult(i) => clif_builder::inst_result(b, m[*i]),
        Step::SealAllBlocks => {
            clif_builder::seal_all_blocks(b);
            0
        },
        Step::Finalize => {
            clif_builder::finalize(b);
            0
        },
        _ => {
            assert(false);
            0
        },
    }
}

/// What came of a request, as the library says it.
fn outcome(r: Result<usize, ModuleError>) -> (o: Result<usize, ModuleFailure>)
    ensures
        match o {
            Ok(id) => answer(r) == Some(id as int) && refused(r) is None,
            Err(e) => answer(r) is None && refused(r) == Some(e),
        },
{
    match r {
        Ok(id) => Ok(id),
        Err(e) => Err(classify(&e)),
    }
}

/// The number that a step gave, if it gave one.
pub open spec fn gave(r: Result<usize, ModuleFailure>) -> Option<int> {
    match r {
        Ok(x) => Some(x as int),
        Err(_) => None,
    }
}

/// Why a step was refused, if it was.
pub open spec fn refusal(r: Result<usize, ModuleFailure>) -> Option<ModuleFailure> {
    match r {
        Ok(_) => None,
        Err(e) => Some(e),
    }
}

/// Replays a step, where `m` holds what the steps before it gave.
fn emit_step(
    step: &Step,
    m: &Vec<usize>,
    b: &mut FunctionBuilder<'_>,
    module: &mut ObjectModule,
) -> (r: Result<usize, ModuleFailure>)
    requires
        !(step@ is Begin),
        refers(step@, ints(m@)),
        linkable(step@, ints(m@), module_log(*old(module))),
        step@ matches Action::DefineData(d, _) ==> has_data(module_log(*old(module)), ints(m@)[d]),
        on_module(step@) || takes(
            builder_code(*old(b)),
            rename(step@, ints(m@), module_log(*old(module))),
        ),
    ensures
        module_target(*final(module)) == module_target(*old(module)),
        on_module(step@) ==> {
            &&& builder_code(*final(b)) == builder_code(*old(b))
            &&& module_log(*final(module)) == module_log(*old(module)).push(
                request(step@, ints(m@), gave(r)),
            )
            &&& follows(module_log(*old(module)), module_log(*final(module)).last())
            &&& rightly(
                module_target(*old(module)),
                module_log(*old(module)),
                module_log(*final(module)).last(),
            )
            &&& refusal(r) == request_refusal(module_log(*old(module)), step@, ints(m@))
            &&& step@ is DefineData ==> (r matches Ok(x) ==> x == 0)
        },
        !on_module(step@) ==> {
            &&& module_log(*final(module)) == module_log(*old(module))
            &&& r matches Ok(x) && called(
                builder_code(*old(b)),
                rename(step@, ints(m@), module_log(*old(module))),
                x,
                builder_code(*final(b)),
            )
        },
{
    match step {
        Step::DeclareFunction(name, params, ret) => {
            let s = make_signature(params, *ret);
            outcome(declare_function(module, name.as_str(), Visibility::Import, &s))
        },
        Step::DeclareData(name) => {
            outcome(declare_data(module, name.as_str(), Visibility::Hidden, false))
        },
        Step::DefineData(d, bytes) => match define_data(module, m[*d], bytes) {
            Ok(()) => Ok(0),
            Err(e) => Err(classify(&e)),
        },
        _ => Ok(emit_call(step, m, b, module)),
    }
}

/// Every step of a plan that a builder takes is taken where it stands.
pub proof fn lemma_accepted_at(acts: Seq<Action>, i: int)
    requires
        accepted(acts),
        0 <= i < acts.len(),
    ensures
        state(acts.take(i)).accepts(acts[i]),
        declared(acts.take(i), acts[i]),
        state(acts.take(i + 1)) == state(acts.take(i)).next(acts[i], i),
    decreases acts.len(),
{
    reveal(accepted);
    reveal(state);
    assert(acts.take(i + 1).drop_last() =~= acts.take(i));
    assert(acts.take(i + 1).last() == acts[i]);
    if i == acts.len() - 1 {
        assert(acts.drop_last() =~= acts.take(i));
    } else {
        let less = acts.drop_last();
        lemma_accepted_at(less, i);
        assert(less.take(i) =~= acts.take(i));
    }
}

/// A plan and a builder start together.
proof fn lemma_begun(a: Action)
    requires
        a is Begin,
    ensures
        same(state(seq![a]), replay(seq![(a, 0int)]), seq![0int]),
        lawful(seq![(a, 0int)]),
{
    reveal(state);
    let (acts, h) = (seq![a], seq![(a, 0int)]);
    assert(acts.drop_last() =~= seq![]);
    assert(h.drop_last() =~= seq![]);
    reveal_with_fuel(replay, 2);
    reveal_with_fuel(lawful, 2);
    reveal_with_fuel(state, 2);
    assert(state(acts) == unstarted().next(a, 0));
    assert(replay(h) == unstarted().next(a, 0));
}

/// One more call.
proof fn lemma_called(before: Code, a: Action, r: usize, after: Code)
    requires
        lawful(before.body),
        takes(before, a),
        called(before, a, r, after),
    ensures
        lawful(after.body),
        replay(after.body) == replay(before.body).next(a, r as int),
        replay(before.body).gives(a, r as int),
        after == (Code { body: before.body.push((a, r as int)), ..before }),
{
    reveal(takes);
    reveal(called);
    assert(after.body.drop_last() =~= before.body);
}

/// What is replayed, step by step.
proof fn lemma_one_more(acts: Seq<Action>, i: int, m: Seq<int>, r: int, log: Log)
    requires
        0 <= i < acts.len(),
        m.len() == i,
    ensures
        on_module(acts[i]) ==> requests(acts.take(i + 1), m.push(r)) == requests(
            acts.take(i),
            m,
        ).push(request(acts[i], m, Some(r))) && history(acts.take(i + 1), m.push(r), log)
            == history(acts.take(i), m, log),
        !on_module(acts[i]) ==> requests(acts.take(i + 1), m.push(r)) == requests(acts.take(i), m)
            && history(acts.take(i + 1), m.push(r), log) == history(acts.take(i), m, log).push(
            (rename(acts[i], m, log + requests(acts.take(i), m)), r),
        ),
{
    assert(acts.take(i + 1).drop_last() =~= acts.take(i));
    assert(acts.take(i + 1).last() == acts[i]);
    assert(m.push(r).drop_last() =~= m);
}

/// What is called on the builder is as large as what was planned.
pub proof fn lemma_history_size(acts: Seq<Action>, m: Seq<int>, log: Log)
    ensures
        body_size(history(acts, m, log)) == plan_size(acts),
    decreases acts.len(),
{
    if acts.len() > 0 {
        let h = history(acts, m, log);
        let before = history(acts.drop_last(), m.drop_last(), log);
        lemma_history_size(acts.drop_last(), m.drop_last(), log);
        if !on_module(acts.last()) {
            assert(h.drop_last() =~= before);
        }
    }
}

/// What a step needs of the module is there.
proof fn lemma_module_ready(acts: Seq<Action>, i: int, m: Seq<int>, log: Log)
    requires
        0 <= i < acts.len(),
        orderly(log),
        module_knows(acts.take(i), m, log),
        declared(acts.take(i), acts[i]),
    ensures
        linkable(acts[i], m, log),
        acts[i] matches Action::DefineData(d, _) ==> has_data(log, m[d]),
        acts[i] is ImportFunction || acts[i] is ImportData || on_module(acts[i]) ==> refers(
            acts[i],
            m,
        ),
{
    match acts[i] {
        Action::ImportFunction(f, t) => {
            let p = acts.take(i)[f]->DeclareFunction_1;
            lemma_signature_of(log, m[f], call_signature(p, t));
        },
        _ => {},
    }
}

/// The module knows what one more step declared.
proof fn lemma_module_knows(acts: Seq<Action>, i: int, m: Seq<int>, r: int, log: Log, more: Log)
    requires
        0 <= i < acts.len(),
        module_knows(acts.take(i), m, log),
        on_module(acts[i]) ==> more == log.push(request(acts[i], m, Some(r))),
        !on_module(acts[i]) ==> more == log,
    ensures
        module_knows(acts.take(i + 1), m.push(r), more),
{
    let (now, m2) = (acts.take(i + 1), m.push(r));
    if on_module(acts[i]) {
        lemma_log_push(log, request(acts[i], m, Some(r)));
        assert(more.last() == more[log.len() as int]);
    }
    assert forall|j: int| 0 <= j < now.len() implies (#[trigger] now[j] matches
        Action::DeclareFunction(_, p, t) ==> has_function(more, m2[j], call_signature(p, t))) by {
        if j < i {
            assert(acts.take(i)[j] == now[j]);
            assert(m2[j] == m[j]);
        }
    }
    assert forall|j: int| 0 <= j < now.len() && #[trigger] now[j] is DeclareData implies has_data(
        more,
        m2[j],
    ) by {
        if j < i {
            assert(acts.take(i)[j] == now[j]);
            assert(m2[j] == m[j]);
        }
    }
}

/// Replays planned steps on a builder that has made the first one, and on a
/// module. What comes back is what each step gave.
pub(crate) fn emit(steps: &Vec<Step>, b: &mut FunctionBuilder<'_>, module: &mut ObjectModule) -> (r:
    Result<Vec<usize>, ModuleFailure>)
    requires
        accepted(actions(steps@)),
        fits(plan_size(actions(steps@))),
        steps@.len() > 0,
        steps@[0]@ is Begin,
        builder_code(*old(b)).body == seq![(steps@[0]@, 0int)],
        orderly(module_log(*old(module))),
        all_rightly(module_target(*old(module)), module_log(*old(module))),
    ensures
        module_target(*final(module)) == module_target(*old(module)),
        orderly(module_log(*final(module))),
        all_rightly(module_target(*final(module)), module_log(*final(module))),
        match r {
            Ok(m) => {
                &&& m@.len() == steps@.len()
                &&& module_log(*final(module)) == module_log(*old(module)) + requests(
                    actions(steps@),
                    ints(m@),
                )
                &&& builder_code(*final(b)) == (Code {
                    body: history(actions(steps@), ints(m@), module_log(*old(module))),
                    ..builder_code(*old(b))
                })
                &&& settled(actions(steps@), ints(m@))
                &&& lawful(builder_code(*final(b)).body)
                &&& links_known(builder_code(*final(b)).body, module_log(*final(module)))
                &&& replay(builder_code(*final(b)).body).phase == state(actions(steps@)).phase
            },
            Err(e) => exists|m: Seq<int>| #[trigger]
                stopped_at(
                    actions(steps@),
                    m,
                    module_log(*old(module)),
                    module_log(*final(module)),
                    e,
                ),
        },
{
    let ghost acts = actions(steps@);
    let ghost log = module_log(*module);
    let ghost code = builder_code(*b);
    let mut m: Vec<usize> = Vec::new();
    m.push(0);
    let mut i: usize = 1;
    proof {
        assert(acts.take(1) =~= seq![acts[0]]);
        assert(acts.take(0) =~= seq![]);
        assert(ints(m@) =~= seq![0int]);
        assert(Seq::<int>::empty().push(0) =~= seq![0int]);
        lemma_begun(acts[0]);
        lemma_accepted_at(acts, 0);
        lemma_one_more(acts, 0, Seq::empty(), 0, log);
        assert(history(acts.take(1), ints(m@), log) =~= seq![(acts[0], 0int)]);
        assert(log + requests(acts.take(1), ints(m@)) =~= log);
    }
    while i < steps.len()
        invariant
            1 <= i <= steps.len(),
            acts == actions(steps@),
            accepted(acts),
            fits(plan_size(acts)),
            m@.len() == i,
            module_target(*module) == module_target(*old(module)),
            log == module_log(*old(module)),
            module_log(*module) == log + requests(acts.take(i as int), ints(m@)),
            orderly(module_log(*module)),
            all_rightly(module_target(*module), module_log(*module)),
            builder_code(*b) == (Code {
                body: history(acts.take(i as int), ints(m@), log),
                ..code
            }),
            code == builder_code(*old(b)),
            lawful(builder_code(*b).body),
            links_known(builder_code(*b).body, module_log(*module)),
            settled(acts.take(i as int), ints(m@)),
            same(state(acts.take(i as int)), replay(builder_code(*b).body), ints(m@)),
            !(state(acts.take(i as int)).phase is Unstarted),
            module_knows(acts.take(i as int), ints(m@), module_log(*module)),
        decreases steps.len() - i,
    {
        let ghost a = acts[i as int];
        let ghost before = ints(m@);
        let ghost now = module_log(*module);
        let ghost held = builder_code(*b);
        proof {
            lemma_accepted_at(acts, i as int);
            lemma_module_ready(acts, i as int, before, now);
            lemma_fits_before(acts, i as int);
            lemma_history_size(acts.take(i as int), before, log);
            reveal(takes);
            if !on_module(a) {
                lemma_taken(state(acts.take(i as int)), replay(held.body), before, a, now);
            }
        }
        match emit_step(&steps[i], &m, b, module) {
            Ok(x) => {
                proof {
                    let r = x as int;
                    lemma_one_more(acts, i as int, before, r, log);
                    lemma_module_knows(acts, i as int, before, r, now, module_log(*module));
                    let plan = state(acts.take(i as int));
                    if on_module(a) {
                        lemma_links_push(held.body, now, request(a, before, Some(r)));
                        lemma_orderly_push(now, request(a, before, Some(r)));
                        lemma_rightly_push(
                            module_target(*module),
                            now,
                            request(a, before, Some(r)),
                        );
                        lemma_request_kept(plan, replay(held.body), before, a, r);
                        assert(log + requests(acts.take(i + 1), before.push(r)) =~= now.push(
                            request(a, before, Some(r)),
                        ));
                    } else {
                        lemma_called(held, rename(a, before, now), x, builder_code(*b));
                        lemma_step_kept(plan, replay(held.body), before, a, now, r);
                    }
                }
                m.push(x);
                assert(ints(m@) =~= before.push(x as int));
                i += 1;
            },
            Err(e) => {
                proof {
                    lemma_orderly_push(now, request(a, before, None));
                    lemma_rightly_push(module_target(*module), now, request(a, before, None));
                    assert(stopped_at(acts, before, log, module_log(*module), e));
                }
                return Err(e);
            },
        }
    }
    assert(acts.take(i as int) =~= acts);
    Ok(m)
}

} // verus!
