//! When a module takes some definitions: what they ask for must not clash. In
//! which order they come does not matter.

use vstd::prelude::*;

use crate::accept::law_function_is_accepted;
use crate::answers::{all_rightly, rightly};
use crate::ast::SExpr;
use crate::clif_module::{default_convention, Target};
use crate::emit::{lemma_accepted_at, request_refusal};
use crate::generator::{
    all_built, all_made, compilable, compiled, definition, partly_made, Answers, Definition, Stop,
};
use crate::laws::lemma_exported_in_order;
use crate::module_log::{
    agrees, declares_data, defined_data, defined_function, defines_data, defines_function,
    function_refusal, has_other_signature, is_data_name, is_function_name, names_data,
    names_function, orderly, owned_data, Entry, Log, ModuleFailure,
};
use crate::renaming::{call_signature, on_module, request, requests};
use crate::step::{Action, Convention, SigView};

verus! {

/// What is asked of a module.
pub enum Claim {
    /// That a name be a function's, with a signature.
    Function(Seq<char>, SigView),
    /// That a name be that of a data object.
    Data(Seq<char>),
    /// That the data object of a name be given its contents.
    Contents(Seq<char>),
    /// That the function of a name be given its code.
    Code(Seq<char>),
    /// Nothing.
    Nothing,
}

/// What is asked for a definition: by each step of its plan, then by its own
/// declaration, and last by its code.
pub open spec fn claim(d: Definition<'_>, convention: Convention, q: int) -> Claim {
    let n = d.plan().len();
    if q < n {
        match d.plan()[q] {
            Action::DeclareFunction(name, p, t) => Claim::Function(name, call_signature(p, t)),
            Action::DeclareData(name) => Claim::Data(name),
            Action::DefineData(x, _) => Claim::Contents(d.plan()[x]->DeclareData_0),
            _ => Claim::Nothing,
        }
    } else if q == n {
        Claim::Function(d.symbol(), d.signature(convention))
    } else {
        Claim::Code(d.symbol())
    }
}

/// Whether something is asked for a definition among some expressions.
pub open spec fn asked(es: Seq<SExpr<'_>>, i: int, q: int) -> bool {
    0 <= i < es.len() && (definition(es[i]) matches Some(d) && 0 <= q <= d.plan().len() + 1)
}

/// What is asked for a definition among some expressions.
pub open spec fn claim_at(es: Seq<SExpr<'_>>, convention: Convention, i: int, q: int) -> Claim {
    claim(definition(es[i])->0, convention, q)
}

/// Whether an object file can hold a name.
pub open spec fn sayable(x: Claim) -> bool {
    match x {
        Claim::Function(name, _) => !name.contains('\0'),
        Claim::Data(name) => !name.contains('\0'),
        _ => true,
    }
}

/// Whether two requests go together: a name keeps its signature, and is not that
/// of a function and of data.
pub open spec fn goes_with(x: Claim, y: Claim) -> bool {
    match (x, y) {
        (Claim::Function(m, r), Claim::Function(n, s)) => m == n ==> r == s,
        (Claim::Function(m, _), Claim::Data(n)) => m != n,
        (Claim::Data(m), Claim::Function(n, _)) => m != n,
        _ => true,
    }
}

/// Whether two requests are not for the same code, nor for the same contents.
pub open spec fn apart(x: Claim, y: Claim) -> bool {
    match (x, y) {
        (Claim::Contents(m), Claim::Contents(n)) => m != n,
        (Claim::Code(m), Claim::Code(n)) => m != n,
        _ => true,
    }
}

/// Whether nothing that is asked for some definitions clashes.
pub open spec fn clash_free(es: Seq<SExpr<'_>>, convention: Convention) -> bool {
    &&& forall|i: int, q: int|
        asked(es, i, q) ==> sayable(#[trigger] claim_at(es, convention, i, q))
    &&& forall|i: int, q: int, j: int, r: int|
        asked(es, i, q) && asked(es, j, r) ==> goes_with(
            #[trigger] claim_at(es, convention, i, q),
            #[trigger] claim_at(es, convention, j, r),
        )
    &&& forall|i: int, q: int, j: int, r: int|
        asked(es, i, q) && asked(es, j, r) && (i != j || q != r) ==> apart(
            #[trigger] claim_at(es, convention, i, q),
            #[trigger] claim_at(es, convention, j, r),
        )
}

/// Whether data is given contents only after it was declared.
spec fn well_planned(acts: Seq<Action>) -> bool {
    forall|q: int|
        0 <= q < acts.len() ==> (#[trigger] acts[q] matches Action::DefineData(x, _) ==> 0 <= x < q
            && acts[x] is DeclareData)
}

proof fn lemma_well_planned(e: SExpr<'_>)
    requires
        compilable(e),
        definition(e) is Some,
    ensures
        well_planned((definition(e)->0).plan()),
{
    let d = definition(e)->0;
    law_function_is_accepted(d.name, d.args, d.ret, d.expr);
    let acts = d.plan();
    assert forall|q: int| 0 <= q < acts.len() && (#[trigger] acts[q] is DefineData) implies ({
        let x = acts[q]->DefineData_0;
        0 <= x < q && acts[x] is DeclareData
    }) by {
        lemma_accepted_at(acts, q);
    }
}

/// Where a step's request stands among those of its plan.
proof fn lemma_request_stands(acts: Seq<Action>, m: Seq<int>, q: int)
    requires
        m.len() == acts.len(),
        0 <= q < acts.len(),
        on_module(acts[q]),
    ensures
        ({
            let k = requests(acts.take(q), m.take(q)).len() as int;
            &&& k < requests(acts, m).len()
            &&& requests(acts, m)[k] == request(acts[q], m.take(q), Some(m[q]))
        }),
    decreases acts.len(),
{
    if q == acts.len() - 1 {
        assert(acts.take(q) =~= acts.drop_last());
        assert(m.take(q) =~= m.drop_last());
    } else {
        lemma_request_stands(acts.drop_last(), m.drop_last(), q);
        assert(acts.drop_last().take(q) =~= acts.take(q));
        assert(m.drop_last().take(q) =~= m.take(q));
    }
}

/// Later steps ask later.
proof fn lemma_requests_in_order(acts: Seq<Action>, m: Seq<int>, q: int, r: int)
    requires
        m.len() == acts.len(),
        0 <= q < r < acts.len(),
        on_module(acts[q]),
    ensures
        requests(acts.take(q), m.take(q)).len() < requests(acts.take(r), m.take(r)).len(),
{
    lemma_request_stands(acts.take(r), m.take(r), q);
    assert(acts.take(r).take(q) =~= acts.take(q));
    assert(m.take(r).take(q) =~= m.take(q));
}

/// Every request of a plan is that of a step.
proof fn lemma_request_of_step(acts: Seq<Action>, m: Seq<int>, k: int) -> (q: int)
    requires
        m.len() == acts.len(),
        0 <= k < requests(acts, m).len(),
    ensures
        0 <= q < acts.len(),
        on_module(acts[q]),
        requests(acts, m)[k] == request(acts[q], m.take(q), Some(m[q])),
    decreases acts.len(),
{
    let before = requests(acts.drop_last(), m.drop_last());
    if k < before.len() {
        let q = lemma_request_of_step(acts.drop_last(), m.drop_last(), k);
        assert(m.drop_last().take(q) =~= m.take(q));
        q
    } else {
        assert(m.take(acts.len() - 1) =~= m.drop_last());
        acts.len() - 1
    }
}

/// What was asked of a module once some definitions were compiled, and a part of
/// the plan of the next one.
spec fn partly_asked(
    es: Seq<SExpr<'_>>,
    a: Seq<Answers>,
    m: Seq<int>,
    convention: Convention,
) -> Log {
    let first = es.take(a.len() as int);
    compiled(first, a, Log::empty(), convention) + requests(
        (definition(es[a.len() as int])->0).plan().take(m.len() as int),
        m,
    )
}

/// Whether an entry answers a claim; for contents and code, another entry named
/// what they were given to.
spec fn answers_claim(log: Log, k: int, l: int, x: Claim) -> bool {
    &&& 0 <= k < log.len()
    &&& match log[k] {
        Entry::DeclareFunction { name, signature, id, .. } => {
            id is Some && x == Claim::Function(name, signature)
        },
        Entry::DeclareData { name, id, .. } => id is Some && x == Claim::Data(name),
        Entry::DefineData { id, done, .. } => {
            &&& done
            &&& 0 <= l < log.len()
            &&& x is Contents
            &&& names_data(log[l], x->Contents_0)
            &&& log[l]->DeclareData_id == Some(id)
        },
        Entry::DefineFunction { id, done, .. } => {
            &&& done
            &&& 0 <= l < log.len()
            &&& x is Code
            &&& names_function(log[l], x->Code_0)
            &&& log[l]->DeclareFunction_id == Some(id)
        },
    }
}

/// A request of a plan answers the claim of its step.
proof fn lemma_step_answers(
    d: Definition<'_>,
    m: Seq<int>,
    before: Log,
    convention: Convention,
    q: int,
) -> (l: int)
    requires
        well_planned(d.plan()),
        m.len() <= d.plan().len(),
        0 <= q < m.len(),
        on_module(d.plan()[q]),
    ensures
        ({
            let acts = d.plan().take(m.len() as int);
            answers_claim(
                before + requests(acts, m),
                (before.len() + requests(acts.take(q), m.take(q)).len()) as int,
                l,
                claim(d, convention, q),
            )
        }),
{
    let acts = d.plan().take(m.len() as int);
    let log = before + requests(acts, m);
    lemma_request_stands(acts, m, q);
    let k = (before.len() + requests(acts.take(q), m.take(q)).len()) as int;
    assert(log[k] == request(acts[q], m.take(q), Some(m[q])));
    assert(acts[q] == d.plan()[q]);
    match d.plan()[q] {
        Action::DefineData(x, _) => {
            assert(acts[x] == d.plan()[x]);
            lemma_request_stands(acts, m, x);
            let l = (before.len() + requests(acts.take(x), m.take(x)).len()) as int;
            assert(log[l] == request(acts[x], m.take(x), Some(m[x])));
            assert(m.take(q)[x] == m[x]);
            l
        },
        _ => 0,
    }
}

/// What was granted stays granted.
proof fn lemma_answers_more(log: Log, more: Log, k: int, l: int, x: Claim)
    requires
        answers_claim(log, k, l, x),
        log.len() <= more.len(),
        more.take(log.len() as int) == log,
    ensures
        answers_claim(more, k, l, x),
{
    assert(more[k] == log[k]) by {
        assert(more.take(log.len() as int)[k] == more[k]);
    }
    if 0 <= l < log.len() {
        assert(more.take(log.len() as int)[l] == more[l]);
    }
}

/// Whether code was made for definitions that are well planned.
spec fn well_made(es: Seq<SExpr<'_>>, a: Seq<Answers>) -> bool {
    &&& a.len() == es.len()
    &&& forall|i: int|
        0 <= i < es.len() ==> (definition(#[trigger] es[i]) matches Some(d) ==> {
            &&& a[i].given.len() == d.plan().len()
            &&& well_planned(d.plan())
        })
}

proof fn lemma_well_made(es: Seq<SExpr<'_>>, a: Seq<Answers>, convention: Convention)
    requires
        all_built(es, a, Log::empty(), convention),
        forall|i: int| 0 <= i < es.len() ==> compilable(#[trigger] es[i]),
    ensures
        well_made(es, a),
{
    assert forall|i: int| 0 <= i < es.len() && definition(#[trigger] es[i]) is Some implies ({
        let d = definition(es[i])->0;
        &&& a[i].given.len() == d.plan().len()
        &&& well_planned(d.plan())
    }) by {
        lemma_well_planned(es[i]);
    }
}

/// Where the answer to a claim stands.
spec fn stand(
    es: Seq<SExpr<'_>>,
    a: Seq<Answers>,
    convention: Convention,
    i: int,
    q: int,
) -> int {
    let before = compiled(es.take(i), a.take(i), Log::empty(), convention);
    let acts = (definition(es[i])->0).plan();
    if q < acts.len() {
        (before.len() + requests(acts.take(q), a[i].given.take(q)).len()) as int
    } else {
        (before.len() + requests(acts, a[i].given).len() + (q - acts.len())) as int
    }
}

/// What was compiled so far is the start of what is compiled in the end.
proof fn lemma_start_compiled(
    es: Seq<SExpr<'_>>,
    a: Seq<Answers>,
    convention: Convention,
    i: int,
)
    requires
        a.len() == es.len(),
        0 <= i <= es.len(),
    ensures
        ({
            let less = compiled(es.take(i), a.take(i), Log::empty(), convention);
            let all = compiled(es, a, Log::empty(), convention);
            less.len() <= all.len() && all.take(less.len() as int) == less
        }),
    decreases es.len(),
{
    let less = compiled(es.take(i), a.take(i), Log::empty(), convention);
    let all = compiled(es, a, Log::empty(), convention);
    if i == es.len() {
        assert(es.take(i) =~= es);
        assert(a.take(i) =~= a);
        assert(all.take(less.len() as int) =~= less);
    } else {
        lemma_start_compiled(es.drop_last(), a.drop_last(), convention, i);
        assert(es.drop_last().take(i) =~= es.take(i));
        assert(a.drop_last().take(i) =~= a.take(i));
        let before = compiled(es.drop_last(), a.drop_last(), Log::empty(), convention);
        assert(all.take(less.len() as int) =~= before.take(less.len() as int));
    }
}

/// Every claim of definitions that code was made for was granted.
proof fn lemma_claim_is_answered(
    es: Seq<SExpr<'_>>,
    a: Seq<Answers>,
    convention: Convention,
    i: int,
    q: int,
) -> (l: int)
    requires
        well_made(es, a),
        asked(es, i, q),
        !(claim_at(es, convention, i, q) is Nothing),
    ensures
        answers_claim(
            compiled(es, a, Log::empty(), convention),
            stand(es, a, convention, i, q),
            l,
            claim_at(es, convention, i, q),
        ),
        stand(es, a, convention, i, q) < compiled(
            es.take(i + 1),
            a.take(i + 1),
            Log::empty(),
            convention,
        ).len(),
{
    let d = definition(es[i])->0;
    let acts = d.plan();
    let given = a[i].given;
    let before = compiled(es.take(i), a.take(i), Log::empty(), convention);
    let here = compiled(es.take(i + 1), a.take(i + 1), Log::empty(), convention);
    let all = compiled(es, a, Log::empty(), convention);
    assert(es.take(i + 1).drop_last() =~= es.take(i));
    assert(a.take(i + 1).drop_last() =~= a.take(i));
    assert(es.take(i + 1).last() == es[i]);
    assert(a.take(i + 1).last() == a[i]);
    assert(here == d.defined(a[i], before, convention));
    lemma_start_compiled(es, a, convention, i + 1);
    let k = stand(es, a, convention, i, q);
    let n = (before.len() + requests(acts, given).len()) as int;
    let x = claim_at(es, convention, i, q);
    assert(acts.take(acts.len() as int) =~= acts);
    let l = if q < acts.len() {
        let l = lemma_step_answers(d, given, before, convention, q);
        let planned = before + requests(acts, given);
        assert(answers_claim(planned, k, l, x));
        assert(here.take(planned.len() as int) =~= planned);
        lemma_answers_more(planned, here, k, l, x);
        l
    } else {
        assert(here[n] == d.declaration(convention, Some(a[i].id)));
        assert(here[n + 1] == d.request(a[i], before, convention, true));
        assert(answers_claim(here, k, n, x));
        n
    };
    lemma_answers_more(here, all, k, l, x);
    l
}

/// Two requests stand in two places.
proof fn lemma_stand_apart(
    es: Seq<SExpr<'_>>,
    a: Seq<Answers>,
    convention: Convention,
    i: int,
    q: int,
    j: int,
    r: int,
)
    requires
        well_made(es, a),
        asked(es, i, q),
        asked(es, j, r),
        !(claim_at(es, convention, i, q) is Nothing),
        !(claim_at(es, convention, j, r) is Nothing),
        i < j || (i == j && q < r),
    ensures
        stand(es, a, convention, i, q) < stand(es, a, convention, j, r),
{
    lemma_claim_is_answered(es, a, convention, i, q);
    if i < j {
        lemma_exported_in_order(es, a, Log::empty(), convention, i + 1, j);
    } else {
        let acts = (definition(es[i])->0).plan();
        let given = a[i].given;
        if r < acts.len() {
            lemma_requests_in_order(acts, given, q, r);
        } else if q < acts.len() {
            lemma_request_stands(acts, given, q);
        }
    }
}

/// A claim that is granted can be said.
proof fn lemma_granted_is_sayable(target: Target, log: Log, k: int, l: int, x: Claim)
    requires
        all_rightly(target, log),
        answers_claim(log, k, l, x),
    ensures
        sayable(x),
{
    assert(rightly(target, log.take(k), log[k]));
}

/// Claims that are granted go together.
proof fn lemma_granted_go_together(log: Log, k: int, l: int, x: Claim, i: int, j: int, y: Claim)
    requires
        orderly(log),
        answers_claim(log, k, l, x),
        answers_claim(log, i, j, y),
    ensures
        goes_with(x, y),
        k != i ==> apart(x, y),
{
    if k < i {
        assert(agrees(log[k], log[i]));
    } else if i < k {
        assert(agrees(log[i], log[k]));
    }
    if 0 <= l < log.len() && 0 <= j < log.len() {
        if l < j {
            assert(agrees(log[l], log[j]));
        } else if j < l {
            assert(agrees(log[j], log[l]));
        }
    }
}

/// Definitions that a module took do not clash.
pub proof fn law_compiled_do_not_clash(
    es: Seq<SExpr<'_>>,
    a: Seq<Answers>,
    after: Log,
    read: Seq<Seq<char>>,
    read_after: Seq<Seq<char>>,
    convention: Convention,
    target: Target,
)
    requires
        forall|i: int| 0 <= i < es.len() ==> compilable(#[trigger] es[i]),
        all_made(es, a, Log::empty(), after, read, read_after, convention),
        orderly(after),
        all_rightly(target, after),
    ensures
        clash_free(es, convention),
{
    lemma_well_made(es, a, convention);
    lemma_made_do_not_clash(es, a, convention, target);
}

proof fn lemma_made_do_not_clash(
    es: Seq<SExpr<'_>>,
    a: Seq<Answers>,
    convention: Convention,
    target: Target,
)
    requires
        well_made(es, a),
        orderly(compiled(es, a, Log::empty(), convention)),
        all_rightly(target, compiled(es, a, Log::empty(), convention)),
    ensures
        clash_free(es, convention),
{
    let log = compiled(es, a, Log::empty(), convention);
    assert forall|i: int, q: int| asked(es, i, q) implies sayable(
        #[trigger] claim_at(es, convention, i, q),
    ) by {
        let x = claim_at(es, convention, i, q);
        if !(x is Nothing) {
            let l = lemma_claim_is_answered(es, a, convention, i, q);
            lemma_granted_is_sayable(target, log, stand(es, a, convention, i, q), l, x);
        }
    }
    assert forall|i: int, q: int, j: int, r: int|
        asked(es, i, q) && asked(es, j, r) implies goes_with(
        #[trigger] claim_at(es, convention, i, q),
        #[trigger] claim_at(es, convention, j, r),
    ) && (i != j || q != r ==> apart(
        claim_at(es, convention, i, q),
        claim_at(es, convention, j, r),
    )) by {
        let x = claim_at(es, convention, i, q);
        let y = claim_at(es, convention, j, r);
        if !(x is Nothing) && !(y is Nothing) {
            let l = lemma_claim_is_answered(es, a, convention, i, q);
            let n = lemma_claim_is_answered(es, a, convention, j, r);
            let (k, h) = (stand(es, a, convention, i, q), stand(es, a, convention, j, r));
            lemma_granted_go_together(log, k, l, x, h, n, y);
            if i < j || (i == j && q < r) {
                lemma_stand_apart(es, a, convention, i, q, j, r);
            } else if i != j || q != r {
                lemma_stand_apart(es, a, convention, j, r, i, q);
            }
        }
    }
}

/// Every request of definitions that code was made for is one of their claims.
proof fn lemma_entry_is_claimed(
    es: Seq<SExpr<'_>>,
    a: Seq<Answers>,
    convention: Convention,
    k: int,
) -> (r: (int, int, int))
    requires
        well_made(es, a),
        0 <= k < compiled(es, a, Log::empty(), convention).len(),
    ensures
        asked(es, r.0, r.1),
        answers_claim(
            compiled(es, a, Log::empty(), convention),
            k,
            r.2,
            claim_at(es, convention, r.0, r.1),
        ),
    decreases es.len(),
{
    let all = compiled(es, a, Log::empty(), convention);
    let (less, b) = (es.drop_last(), a.drop_last());
    let before = compiled(less, b, Log::empty(), convention);
    if k < before.len() {
        assert forall|i: int| 0 <= i < less.len() && definition(
            #[trigger] less[i],
        ) is Some implies ({
            let d = definition(less[i])->0;
            &&& b[i].given.len() == d.plan().len()
            &&& well_planned(d.plan())
        }) by {
            assert(es[i] == less[i]);
        }
        let (i, q, l) = lemma_entry_is_claimed(less, b, convention, k);
        assert(claim_at(less, convention, i, q) == claim_at(es, convention, i, q));
        assert(all.take(before.len() as int) =~= before);
        lemma_answers_more(before, all, k, l, claim_at(es, convention, i, q));
        (i, q, l)
    } else {
        let i = es.len() - 1;
        assert(es[i] == es.last());
        let d = definition(es[i])->0;
        let acts = d.plan();
        let given = a[i].given;
        let n = (before.len() + requests(acts, given).len()) as int;
        if k < n {
            let planned = before + requests(acts, given);
            let q = lemma_request_of_step(acts, given, k - before.len());
            assert(acts.take(acts.len() as int) =~= acts);
            let l = lemma_plan_is_claimed(d, given, before, convention, k, q);
            assert(all.take(planned.len() as int) =~= planned);
            lemma_answers_more(planned, all, k, l, claim_at(es, convention, i, q));
            (i, q, l)
        } else {
            assert(all[n] == d.declaration(convention, Some(a[i].id)));
            assert(all[n + 1] == d.request(a[i], before, convention, true));
            (i, acts.len() + (k - n), n)
        }
    }
}

/// A request of a plan is a claim, where it stands.
proof fn lemma_plan_is_claimed(
    d: Definition<'_>,
    m: Seq<int>,
    before: Log,
    convention: Convention,
    k: int,
    q: int,
) -> (l: int)
    requires
        well_planned(d.plan()),
        m.len() <= d.plan().len(),
        0 <= q < m.len(),
        on_module(d.plan()[q]),
        ({
            let asks = requests(d.plan().take(m.len() as int), m);
            &&& before.len() <= k < before.len() + asks.len()
            &&& asks[k - before.len()] == request(d.plan()[q], m.take(q), Some(m[q]))
        }),
    ensures
        answers_claim(
            before + requests(d.plan().take(m.len() as int), m),
            k,
            l,
            claim(d, convention, q),
        ),
{
    let acts = d.plan().take(m.len() as int);
    let log = before + requests(acts, m);
    let l = lemma_step_answers(d, m, before, convention, q);
    lemma_request_stands(acts, m, q);
    assert(acts[q] == d.plan()[q]);
    let h = (before.len() + requests(acts.take(q), m.take(q)).len()) as int;
    assert(log[k] == log[h]);
    l
}

/// Every request is a claim, that of a definition which is not yet finished
/// included.
proof fn lemma_partly_claimed(
    es: Seq<SExpr<'_>>,
    a: Seq<Answers>,
    m: Seq<int>,
    convention: Convention,
    k: int,
) -> (r: (int, int, int))
    requires
        a.len() < es.len(),
        well_made(es.take(a.len() as int), a),
        definition(es[a.len() as int]) is Some,
        well_planned((definition(es[a.len() as int])->0).plan()),
        m.len() <= (definition(es[a.len() as int])->0).plan().len(),
        0 <= k < partly_asked(es, a, m, convention).len(),
    ensures
        asked(es, r.0, r.1),
        r.0 < a.len() || (r.0 == a.len() && r.1 < m.len()),
        answers_claim(
            partly_asked(es, a, m, convention),
            k,
            r.2,
            claim_at(es, convention, r.0, r.1),
        ),
{
    let n = a.len() as int;
    let first = es.take(n);
    let before = compiled(first, a, Log::empty(), convention);
    let all = partly_asked(es, a, m, convention);
    let d = definition(es[n])->0;
    let acts = d.plan().take(m.len() as int);
    if k < before.len() {
        let (i, q, l) = lemma_entry_is_claimed(first, a, convention, k);
        assert(first[i] == es[i]);
        assert(all.take(before.len() as int) =~= before);
        lemma_answers_more(before, all, k, l, claim_at(es, convention, i, q));
        (i, q, l)
    } else {
        let q = lemma_request_of_step(acts, m, k - before.len());
        assert(acts[q] == d.plan()[q]);
        let l = lemma_plan_is_claimed(d, m, before, convention, k, q);
        (n, q, l)
    }
}

/// A function is not refused where its name does not clash.
proof fn lemma_function_is_free(
    es: Seq<SExpr<'_>>,
    a: Seq<Answers>,
    m: Seq<int>,
    convention: Convention,
    q: int,
    name: Seq<char>,
    signature: SigView,
)
    requires
        a.len() < es.len(),
        well_made(es.take(a.len() as int), a),
        definition(es[a.len() as int]) is Some,
        well_planned((definition(es[a.len() as int])->0).plan()),
        m.len() <= (definition(es[a.len() as int])->0).plan().len(),
        clash_free(es, convention),
        asked(es, a.len() as int, q),
        claim_at(es, convention, a.len() as int, q) == Claim::Function(name, signature),
    ensures
        function_refusal(partly_asked(es, a, m, convention), name, signature) is None,
{
    let log = partly_asked(es, a, m, convention);
    let n = a.len() as int;
    assert(sayable(claim_at(es, convention, n, q)));
    if is_data_name(log, name) {
        let k = choose|k: int| 0 <= k < log.len() && names_data(#[trigger] log[k], name);
        let (i, p, l) = lemma_partly_claimed(es, a, m, convention, k);
        assert(goes_with(claim_at(es, convention, n, q), claim_at(es, convention, i, p)));
    }
    if has_other_signature(log, name, signature) {
        let k = choose|k: int|
            0 <= k < log.len() && names_function(#[trigger] log[k], name) && log[k]->signature
                != signature;
        let (i, p, l) = lemma_partly_claimed(es, a, m, convention, k);
        assert(goes_with(claim_at(es, convention, n, q), claim_at(es, convention, i, p)));
    }
}

/// Nothing that a plan asks for is refused where nothing clashes.
proof fn lemma_plan_is_granted(
    es: Seq<SExpr<'_>>,
    a: Seq<Answers>,
    m: Seq<int>,
    convention: Convention,
)
    requires
        a.len() < es.len(),
        well_made(es.take(a.len() as int), a),
        definition(es[a.len() as int]) is Some,
        well_planned((definition(es[a.len() as int])->0).plan()),
        m.len() < (definition(es[a.len() as int])->0).plan().len(),
        clash_free(es, convention),
        orderly(partly_asked(es, a, m, convention)),
    ensures
        request_refusal(
            partly_asked(es, a, m, convention),
            (definition(es[a.len() as int])->0).plan()[m.len() as int],
            m,
        ) is None,
{
    let log = partly_asked(es, a, m, convention);
    let n = a.len() as int;
    let q = m.len() as int;
    let d = definition(es[n])->0;
    match d.plan()[q] {
        Action::DeclareFunction(name, p, t) => {
            lemma_function_is_free(es, a, m, convention, q, name, call_signature(p, t));
        },
        Action::DeclareData(name) => {
            assert(sayable(claim_at(es, convention, n, q)));
            if is_function_name(log, name) {
                let k = choose|k: int|
                    0 <= k < log.len() && names_function(#[trigger] log[k], name);
                let (i, p, l) = lemma_partly_claimed(es, a, m, convention, k);
                assert(goes_with(claim_at(es, convention, n, q), claim_at(es, convention, i, p)));
            }
        },
        Action::DefineData(x, _) => {
            let acts = d.plan().take(q);
            let before = compiled(es.take(n), a, Log::empty(), convention);
            lemma_request_stands(acts, m, x);
            assert(acts[x] == d.plan()[x]);
            let h = (before.len() + requests(acts.take(x), m.take(x)).len()) as int;
            assert(log[h] == request(d.plan()[x], m.take(x), Some(m[x])));
            assert(declares_data(log[h], m[x]));
            assert(owned_data(log, m[x]));
            if defined_data(log, m[x]) {
                let k = choose|k: int| 0 <= k < log.len() && defines_data(#[trigger] log[k], m[x]);
                let (i, p, l) = lemma_partly_claimed(es, a, m, convention, k);
                assert(apart(claim_at(es, convention, n, q), claim_at(es, convention, i, p)));
                if l < h {
                    assert(agrees(log[l], log[h]));
                } else if h < l {
                    assert(agrees(log[h], log[l]));
                }
            }
        },
        _ => {},
    }
}

/// What came before what goes together goes together.
proof fn lemma_orderly_start(log: Log, more: Log)
    requires
        orderly(more),
        log.len() <= more.len(),
        more.take(log.len() as int) == log,
    ensures
        orderly(log),
{
    assert forall|i: int, j: int| 0 <= i < j < log.len() implies agrees(
        #[trigger] log[i],
        #[trigger] log[j],
    ) by {
        assert(more.take(log.len() as int)[i] == more[i]);
        assert(more.take(log.len() as int)[j] == more[j]);
    }
}

/// Where nothing clashes, a module refuses none of some definitions, but for code
/// that cannot be compiled.
pub proof fn law_only_clashes_are_refused(
    es: Seq<SExpr<'_>>,
    a: Seq<Answers>,
    stop: Stop,
    after: Log,
    read: Seq<Seq<char>>,
    read_after: Seq<Seq<char>>,
    target: Target,
    e: ModuleFailure,
)
    requires
        forall|i: int| 0 <= i < es.len() ==> compilable(#[trigger] es[i]),
        clash_free(es, default_convention(target.triple)),
        partly_made(es, a, stop, Log::empty(), after, read, read_after, target, e),
        orderly(after),
    ensures
        stop is Defining,
        e == ModuleFailure::Compilation,
{
    let convention = default_convention(target.triple);
    let n = a.len() as int;
    let first = es.take(n);
    assert forall|i: int| 0 <= i < first.len() implies compilable(#[trigger] first[i]) by {
        assert(es[i] == first[i]);
    }
    lemma_well_made(first, a, convention);
    lemma_well_planned(es[n]);
    let d = definition(es[n])->0;
    let before = compiled(first, a, Log::empty(), convention);
    assert(d.plan().take(d.plan().len() as int) =~= d.plan());
    match stop {
        Stop::Building(m) => {
            let log = partly_asked(es, a, m, convention);
            assert(after.take(log.len() as int) =~= log);
            lemma_orderly_start(log, after);
            lemma_plan_is_granted(es, a, m, convention);
        },
        Stop::Declaring(m) => {
            lemma_function_is_free(
                es,
                a,
                m,
                convention,
                d.plan().len() as int,
                d.symbol(),
                d.signature(convention),
            );
        },
        Stop::Defining(b) => {
            let log = d.declared(b, before, convention);
            assert(after.take(log.len() as int) =~= log);
            lemma_orderly_start(log, after);
            if defined_function(log, b.id) {
                lemma_code_is_free(es, a, b, convention);
            }
        },
    }
}

/// A definition has no code yet where nothing clashes.
proof fn lemma_code_is_free(
    es: Seq<SExpr<'_>>,
    a: Seq<Answers>,
    b: Answers,
    convention: Convention,
)
    requires
        a.len() < es.len(),
        well_made(es.take(a.len() as int), a),
        definition(es[a.len() as int]) is Some,
        well_planned((definition(es[a.len() as int])->0).plan()),
        b.given.len() == (definition(es[a.len() as int])->0).plan().len(),
        clash_free(es, convention),
        orderly(
            (definition(es[a.len() as int])->0).declared(
                b,
                compiled(es.take(a.len() as int), a, Log::empty(), convention),
                convention,
            ),
        ),
    ensures
        !defined_function(
            (definition(es[a.len() as int])->0).declared(
                b,
                compiled(es.take(a.len() as int), a, Log::empty(), convention),
                convention,
            ),
            b.id,
        ),
{
    let n = a.len() as int;
    let d = definition(es[n])->0;
    let before = compiled(es.take(n), a, Log::empty(), convention);
    let log = d.declared(b, before, convention);
    if defined_function(log, b.id) {
        let k = choose|k: int| 0 <= k < log.len() && defines_function(#[trigger] log[k], b.id);
        let part = partly_asked(es, a, b.given, convention);
        assert(d.plan().take(d.plan().len() as int) =~= d.plan());
        let h = log.len() - 1;
        assert(part =~= log.take(h));
        assert(part[k] == log[k]);
        let (i, q, l) = lemma_partly_claimed(es, a, b.given, convention, k);
        assert(part[l] == log[l]);
        assert(agrees(log[l], log[h]));
        let r = (d.plan().len() + 1) as int;
        assert(asked(es, n, r));
        assert(apart(claim_at(es, convention, n, r), claim_at(es, convention, i, q)));
    }
}

/// Whether some expressions are others in another order: each stands where
/// `order` says.
pub open spec fn reordered(es: Seq<SExpr<'_>>, fs: Seq<SExpr<'_>>, order: Seq<int>) -> bool {
    &&& order.len() == fs.len()
    &&& fs.len() == es.len()
    &&& forall|i: int|
        0 <= i < fs.len() ==> 0 <= #[trigger] order[i] < es.len() && fs[i] == es[order[i]]
    &&& forall|i: int, j: int|
        0 <= i < j < fs.len() ==> #[trigger] order[i] != #[trigger] order[j]
}

/// Whether definitions clash does not depend on their order.
pub proof fn law_order_makes_no_clash(
    es: Seq<SExpr<'_>>,
    fs: Seq<SExpr<'_>>,
    order: Seq<int>,
    convention: Convention,
)
    requires
        reordered(es, fs, order),
        clash_free(es, convention),
    ensures
        clash_free(fs, convention),
{
    assert forall|i: int, q: int| asked(fs, i, q) implies sayable(
        #[trigger] claim_at(fs, convention, i, q),
    ) by {
        assert(asked(es, order[i], q));
        assert(sayable(claim_at(es, convention, order[i], q)));
    }
    assert forall|i: int, q: int, j: int, r: int|
        asked(fs, i, q) && asked(fs, j, r) implies goes_with(
        #[trigger] claim_at(fs, convention, i, q),
        #[trigger] claim_at(fs, convention, j, r),
    ) && (i != j || q != r ==> apart(
        claim_at(fs, convention, i, q),
        claim_at(fs, convention, j, r),
    )) by {
        let (g, h) = (order[i], order[j]);
        assert(asked(es, g, q));
        assert(asked(es, h, r));
        assert(i != j ==> g != h);
        assert(goes_with(claim_at(es, convention, g, q), claim_at(es, convention, h, r)));
        assert(g != h || q != r ==> apart(
            claim_at(es, convention, g, q),
            claim_at(es, convention, h, r),
        ));
    }
}

/// The order of definitions does not matter, callers before those they call or
/// after them: if code is made for them in one order, then in another order
/// nothing is refused either, but for code that Cranelift cannot compile.
pub proof fn law_order_does_not_matter(
    es: Seq<SExpr<'_>>,
    a: Seq<Answers>,
    after: Log,
    read_after: Seq<Seq<char>>,
    fs: Seq<SExpr<'_>>,
    order: Seq<int>,
    b: Seq<Answers>,
    stop: Stop,
    other: Log,
    read_other: Seq<Seq<char>>,
    read: Seq<Seq<char>>,
    target: Target,
    e: ModuleFailure,
)
    requires
        forall|i: int| 0 <= i < es.len() ==> compilable(#[trigger] es[i]),
        reordered(es, fs, order),
        all_made(
            es,
            a,
            Log::empty(),
            after,
            read,
            read_after,
            default_convention(target.triple),
        ),
        orderly(after),
        all_rightly(target, after),
        partly_made(fs, b, stop, Log::empty(), other, read, read_other, target, e),
        orderly(other),
    ensures
        stop is Defining,
        e == ModuleFailure::Compilation,
{
    let convention = default_convention(target.triple);
    law_compiled_do_not_clash(es, a, after, read, read_after, convention, target);
    law_order_makes_no_clash(es, fs, order, convention);
    assert forall|i: int| 0 <= i < fs.len() implies compilable(#[trigger] fs[i]) by {
        assert(fs[i] == es[order[i]]);
    }
    law_only_clashes_are_refused(fs, b, stop, other, read, read_other, target, e);
}

} // verus!
