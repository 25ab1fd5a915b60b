//! The answers of a module are those that its rules give.

use vstd::prelude::*;

use crate::clif_module::{compiles, Target};
use crate::module_log::{
    code_refusal, contents_refusal, data_answer, function_answer, Entry, Log,
};

verus! {

/// Whether a request was granted just where nothing speaks against it, and was
/// given the number that is its due.
pub open spec fn rightly(target: Target, log: Log, e: Entry) -> bool {
    match e {
        Entry::DeclareFunction { name, signature, id, .. } => {
            id == function_answer(log, name, signature)
        },
        Entry::DeclareData { name, id, .. } => id == data_answer(log, name),
        Entry::DefineFunction { id, code, done } => {
            done <==> code_refusal(log, id, compiles(target, code)) is None
        },
        Entry::DefineData { id, done, .. } => done <==> contents_refusal(log, id) is None,
    }
}

/// Whether every request was granted just where nothing spoke against it.
pub open spec fn all_rightly(target: Target, log: Log) -> bool {
    forall|j: int| 0 <= j < log.len() ==> rightly(target, log.take(j), #[trigger] log[j])
}

/// What was granted before does not depend on what comes later.
pub proof fn lemma_rightly_take(target: Target, log: Log, n: int)
    requires
        all_rightly(target, log),
        0 <= n <= log.len(),
    ensures
        all_rightly(target, log.take(n)),
{
    let less = log.take(n);
    assert forall|j: int| 0 <= j < less.len() implies rightly(
        target,
        less.take(j),
        #[trigger] less[j],
    ) by {
        assert(less.take(j) =~= log.take(j));
        assert(rightly(target, log.take(j), log[j]));
    }
}

pub proof fn lemma_rightly_push(target: Target, log: Log, e: Entry)
    requires
        all_rightly(target, log),
        rightly(target, log, e),
    ensures
        all_rightly(target, log.push(e)),
{
    let more = log.push(e);
    assert forall|j: int| 0 <= j < more.len() implies rightly(
        target,
        more.take(j),
        #[trigger] more[j],
    ) by {
        assert(more.take(j) =~= log.take(j));
        if j == log.len() {
            assert(log.take(j) =~= log);
        }
    }
}

} // verus!
