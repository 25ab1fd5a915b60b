//! The same definitions always make the same object file.

use vstd::prelude::*;

use crate::answers::{all_rightly, lemma_rightly_take, rightly};
use crate::ast::SExpr;
use crate::clif_module::{object_file, Target};
use crate::generator::{
    all_built, all_made, built_to_end, compiled, definition, listed, Answers, Definition,
};
use crate::laws::law_compiling_in_parts;
use crate::module_log::Log;
use crate::protocol::{lawful, replay, History};
use crate::renaming::{rename, history, on_module, request, requests, settled};
use crate::step::{Action, Convention};

verus! {

/// A plan is given the same by every builder and module that stand where it
/// starts.
proof fn lemma_same_given(acts: Seq<Action>, m: Seq<int>, n: Seq<int>, log: Log, target: Target)
    requires
        m.len() == acts.len(),
        n.len() == acts.len(),
        settled(acts, m),
        settled(acts, n),
        lawful(history(acts, m, log)),
        lawful(history(acts, n, log)),
        all_rightly(target, log + requests(acts, m)),
        all_rightly(target, log + requests(acts, n)),
    ensures
        m == n,
    decreases acts.len(),
{
    if acts.len() == 0 {
        assert(m =~= n);
    } else {
        let less = acts.drop_last();
        let (m1, n1) = (m.drop_last(), n.drop_last());
        lemma_less_given(acts, m, log, target);
        lemma_less_given(acts, n, log, target);
        lemma_same_given(less, m1, n1, log, target);
        lemma_last_given(acts, m, n, log, target);
        assert(m =~= m1.push(m.last()));
        assert(n =~= n1.push(n.last()));
    }
}

/// The last step of a plan gives one number.
proof fn lemma_last_given(acts: Seq<Action>, m: Seq<int>, n: Seq<int>, log: Log, target: Target)
    requires
        acts.len() > 0,
        m.len() == acts.len(),
        n.len() == acts.len(),
        m.drop_last() == n.drop_last(),
        settled(acts, m),
        settled(acts, n),
        lawful(history(acts, m, log)),
        lawful(history(acts, n, log)),
        all_rightly(target, log + requests(acts, m)),
        all_rightly(target, log + requests(acts, n)),
    ensures
        m.last() == n.last(),
{
    let (less, a, m1) = (acts.drop_last(), acts.last(), m.drop_last());
    let now = log + requests(less, m1);
    if on_module(a) {
        let (p, q) = (log + requests(acts, m), log + requests(acts, n));
        let k = now.len() as int;
        assert(p =~= now.push(request(a, m1, Some(m.last()))));
        assert(q =~= now.push(request(a, m1, Some(n.last()))));
        assert(p.take(k) =~= now);
        assert(q.take(k) =~= now);
        assert(rightly(target, p.take(k), p[k]));
        assert(rightly(target, q.take(k), q[k]));
        assert(acts[acts.len() - 1] == a);
    } else {
        lemma_one_number(history(less, m1, log), rename(a, m1, now), m.last(), n.last());
    }
}

/// A call gives one number.
proof fn lemma_one_number(h: History, a: Action, x: int, y: int)
    requires
        lawful(h.push((a, x))),
        lawful(h.push((a, y))),
    ensures
        x == y,
{
    let (p, q) = (h.push((a, x)), h.push((a, y)));
    assert(p.drop_last() =~= h);
    assert(q.drop_last() =~= h);
    assert(replay(h).gives(p.last().0, p.last().1));
    assert(replay(h).gives(q.last().0, q.last().1));
}

/// What holds of a plan that was replayed holds of all but its last step.
proof fn lemma_less_given(acts: Seq<Action>, m: Seq<int>, log: Log, target: Target)
    requires
        acts.len() > 0,
        m.len() == acts.len(),
        settled(acts, m),
        lawful(history(acts, m, log)),
        all_rightly(target, log + requests(acts, m)),
    ensures
        settled(acts.drop_last(), m.drop_last()),
        lawful(history(acts.drop_last(), m.drop_last(), log)),
        all_rightly(target, log + requests(acts.drop_last(), m.drop_last())),
{
    let (less, m1) = (acts.drop_last(), m.drop_last());
    let now = log + requests(less, m1);
    lemma_rightly_take(target, log + requests(acts, m), now.len() as int);
    assert((log + requests(acts, m)).take(now.len() as int) =~= now);
    if !on_module(acts.last()) {
        assert(history(acts, m, log).drop_last() =~= history(less, m1, log));
    }
    assert forall|j: int| 0 <= j < less.len() && (#[trigger] less[j] is DefineData) implies m1[j]
        == 0 by {
        assert(acts[j] == less[j]);
    }
}

/// A definition is given the same by every generator that stands where it starts.
proof fn lemma_same_answers(
    d: Definition<'_>,
    a: Answers,
    b: Answers,
    log: Log,
    convention: Convention,
    target: Target,
)
    requires
        built_to_end(d, a.given, log),
        built_to_end(d, b.given, log),
        all_rightly(target, d.defined(a, log, convention)),
        all_rightly(target, d.defined(b, log, convention)),
    ensures
        a == b,
{
    let (p, q) = (d.defined(a, log, convention), d.defined(b, log, convention));
    let (x, y) = (d.planned(a.given, log), d.planned(b.given, log));
    lemma_rightly_take(target, p, x.len() as int);
    lemma_rightly_take(target, q, y.len() as int);
    assert(p.take(x.len() as int) =~= x);
    assert(q.take(y.len() as int) =~= y);
    lemma_same_given(d.plan(), a.given, b.given, log, target);
    let k = x.len() as int;
    assert(rightly(target, p.take(k), p[k]));
    assert(rightly(target, q.take(k), q[k]));
}

/// Code that was made was made of all but the last expression as well.
proof fn lemma_less_built(
    es: Seq<SExpr<'_>>,
    a: Seq<Answers>,
    log: Log,
    convention: Convention,
    target: Target,
)
    requires
        es.len() > 0,
        all_built(es, a, log, convention),
        all_rightly(target, compiled(es, a, log, convention)),
    ensures
        all_built(es.drop_last(), a.drop_last(), log, convention),
        all_rightly(target, compiled(es.drop_last(), a.drop_last(), log, convention)),
        definition(es.last()) matches Some(d) ==> built_to_end(
            d,
            a.last().given,
            compiled(es.drop_last(), a.drop_last(), log, convention),
        ),
{
    let (less, b) = (es.drop_last(), a.drop_last());
    let before = compiled(less, b, log, convention);
    let all = compiled(es, a, log, convention);
    lemma_rightly_take(target, all, before.len() as int);
    assert(all.take(before.len() as int) =~= before);
    assert forall|j: int| 0 <= j < less.len() implies (definition(#[trigger] less[j]) matches Some(
        d,
    ) ==> built_to_end(d, b[j].given, compiled(less.take(j), b.take(j), log, convention))) by {
        assert(es[j] == less[j]);
        assert(less.take(j) =~= es.take(j));
        assert(b.take(j) =~= a.take(j));
    }
    assert(es.take(es.len() - 1) =~= less);
    assert(a.take(es.len() - 1) =~= b);
    assert(es[es.len() - 1] == es.last());
}

/// The same expressions make the same of a module, whatever generator compiles
/// them.
proof fn lemma_same_compiled(
    es: Seq<SExpr<'_>>,
    a: Seq<Answers>,
    b: Seq<Answers>,
    log: Log,
    convention: Convention,
    target: Target,
)
    requires
        all_built(es, a, log, convention),
        all_built(es, b, log, convention),
        all_rightly(target, compiled(es, a, log, convention)),
        all_rightly(target, compiled(es, b, log, convention)),
    ensures
        compiled(es, a, log, convention) == compiled(es, b, log, convention),
        listed(es, a, log, convention) == listed(es, b, log, convention),
    decreases es.len(),
{
    if es.len() > 0 {
        lemma_less_built(es, a, log, convention, target);
        lemma_less_built(es, b, log, convention, target);
        lemma_same_compiled(
            es.drop_last(),
            a.drop_last(),
            b.drop_last(),
            log,
            convention,
            target,
        );
        let before = compiled(es.drop_last(), a.drop_last(), log, convention);
        match definition(es.last()) {
            Some(d) => lemma_same_answers(d, a.last(), b.last(), before, convention, target),
            None => {},
        }
    }
}

/// The same input always makes the same object file: two generators for the same
/// target of which the same was asked before, and that both made code for the
/// same expressions, come to the same.
pub proof fn law_same_input_same_object(
    es: Seq<SExpr<'_>>,
    a: Seq<Answers>,
    b: Seq<Answers>,
    log: Log,
    after: Log,
    other: Log,
    read: Seq<Seq<char>>,
    read_after: Seq<Seq<char>>,
    read_other: Seq<Seq<char>>,
    convention: Convention,
    target: Target,
)
    requires
        all_made(es, a, log, after, read, read_after, convention),
        all_made(es, b, log, other, read, read_other, convention),
        all_rightly(target, after),
        all_rightly(target, other),
    ensures
        after == other,
        read_after == read_other,
        object_file(target, after) == object_file(target, other),
{
    lemma_same_compiled(es, a, b, log, convention, target);
}

/// Code that was made in two parts was made of both.
proof fn lemma_both_built(
    es: Seq<SExpr<'_>>,
    a: Seq<Answers>,
    fs: Seq<SExpr<'_>>,
    b: Seq<Answers>,
    log: Log,
    convention: Convention,
)
    requires
        all_built(es, a, log, convention),
        all_built(fs, b, compiled(es, a, log, convention), convention),
    ensures
        all_built(es + fs, a + b, log, convention),
{
    let (all, c) = (es + fs, a + b);
    assert forall|j: int| 0 <= j < all.len() implies (definition(#[trigger] all[j]) matches Some(
        d,
    ) ==> built_to_end(d, c[j].given, compiled(all.take(j), c.take(j), log, convention))) by {
        if j < es.len() {
            assert(all[j] == es[j]);
            assert(all.take(j) =~= es.take(j));
            assert(c.take(j) =~= a.take(j));
        } else {
            let k = j - es.len();
            assert(all[j] == fs[k]);
            assert(all.take(j) =~= es + fs.take(k));
            assert(c.take(j) =~= a + b.take(k));
            law_compiling_in_parts(es, a, fs.take(k), b.take(k), log, convention);
        }
    }
}

/// Expressions that are compiled in two parts make the same object file as when
/// they are compiled at once.
pub proof fn law_parts_make_same_object(
    es: Seq<SExpr<'_>>,
    a: Seq<Answers>,
    fs: Seq<SExpr<'_>>,
    b: Seq<Answers>,
    c: Seq<Answers>,
    log: Log,
    middle: Log,
    after: Log,
    once: Log,
    read: Seq<Seq<char>>,
    read_middle: Seq<Seq<char>>,
    read_after: Seq<Seq<char>>,
    read_once: Seq<Seq<char>>,
    convention: Convention,
    target: Target,
)
    requires
        all_made(es, a, log, middle, read, read_middle, convention),
        all_made(fs, b, middle, after, read_middle, read_after, convention),
        all_made(es + fs, c, log, once, read, read_once, convention),
        all_rightly(target, after),
        all_rightly(target, once),
    ensures
        after == once,
        read_after == read_once,
        object_file(target, after) == object_file(target, once),
{
    law_compiling_in_parts(es, a, fs, b, log, convention);
    lemma_both_built(es, a, fs, b, log, convention);
    lemma_same_compiled(es + fs, a + b, c, log, convention, target);
    assert(read_after =~= read_once);
}

/// The definitions among some expressions that code is made for.
pub open spec fn kept<'a>(es: Seq<SExpr<'a>>) -> Seq<SExpr<'a>>
    decreases es.len(),
{
    if es.len() == 0 {
        seq![]
    } else if definition(es.last()) is Some {
        kept(es.drop_last()).push(es.last())
    } else {
        kept(es.drop_last())
    }
}

/// The answers to them.
spec fn kept_answers(es: Seq<SExpr<'_>>, a: Seq<Answers>) -> Seq<Answers>
    decreases es.len(),
{
    if es.len() == 0 {
        seq![]
    } else if definition(es.last()) is Some {
        kept_answers(es.drop_last(), a.drop_last()).push(a.last())
    } else {
        kept_answers(es.drop_last(), a.drop_last())
    }
}

proof fn lemma_kept(
    es: Seq<SExpr<'_>>,
    a: Seq<Answers>,
    log: Log,
    convention: Convention,
    target: Target,
)
    requires
        all_built(es, a, log, convention),
        all_rightly(target, compiled(es, a, log, convention)),
    ensures
        all_built(kept(es), kept_answers(es, a), log, convention),
        compiled(kept(es), kept_answers(es, a), log, convention) == compiled(
            es,
            a,
            log,
            convention,
        ),
        listed(kept(es), kept_answers(es, a), log, convention) == listed(es, a, log, convention),
    decreases es.len(),
{
    if es.len() > 0 {
        lemma_less_built(es, a, log, convention, target);
        lemma_kept(es.drop_last(), a.drop_last(), log, convention, target);
        if definition(es.last()) is Some {
            let (less, b) = (kept(es.drop_last()), kept_answers(es.drop_last(), a.drop_last()));
            let (all, c) = (kept(es), kept_answers(es, a));
            assert(all.drop_last() =~= less);
            assert(c.drop_last() =~= b);
            assert forall|j: int| 0 <= j < all.len() implies (definition(
                #[trigger] all[j],
            ) matches Some(d) ==> built_to_end(
                d,
                c[j].given,
                compiled(all.take(j), c.take(j), log, convention),
            )) by {
                if j < less.len() {
                    assert(all[j] == less[j]);
                    assert(all.take(j) =~= less.take(j));
                    assert(c.take(j) =~= b.take(j));
                } else {
                    assert(all.take(j) =~= less);
                    assert(c.take(j) =~= b);
                }
            }
        }
    }
}

/// Definitions with type parameters, and expressions that are no definitions,
/// leave no trace in an object file: it is the same without them.
pub proof fn law_others_leave_no_trace(
    es: Seq<SExpr<'_>>,
    a: Seq<Answers>,
    b: Seq<Answers>,
    log: Log,
    after: Log,
    other: Log,
    read: Seq<Seq<char>>,
    read_after: Seq<Seq<char>>,
    read_other: Seq<Seq<char>>,
    convention: Convention,
    target: Target,
)
    requires
        all_made(es, a, log, after, read, read_after, convention),
        all_made(kept(es), b, log, other, read, read_other, convention),
        all_rightly(target, after),
        all_rightly(target, other),
    ensures
        after == other,
        read_after == read_other,
        object_file(target, after) == object_file(target, other),
{
    lemma_kept(es, a, log, convention, target);
    lemma_same_compiled(kept(es), kept_answers(es, a), b, log, convention, target);
}

} // verus!
