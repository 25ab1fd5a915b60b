//! What is declared and defined in an object module.
//!
//! A module is known by what was done to it, in order, the requests that it
//! refused among them. What it makes of the next request follows from that.

use vstd::prelude::*;

use crate::protocol::{Code, History};
use crate::step::{Action, SigView};

verus! {

/// Who can see a symbol, and where it is defined.
#[derive(Clone, Copy, Debug, PartialEq, Eq, Structural)]
pub enum Visibility {
    /// Defined elsewhere.
    Import,
    /// Defined here, for the program alone.
    Hidden,
    /// Defined here, for everyone.
    Export,
}

/// Why a module refuses something.
#[derive(Clone, Copy, Debug, PartialEq, Eq, Structural)]
pub enum ModuleFailure {
    /// A name was used before it was declared.
    Undeclared,
    /// A name stands for a function and for data.
    IncompatibleDeclaration,
    /// A function was declared before with another signature.
    IncompatibleSignature,
    /// Something was defined before.
    DuplicateDefinition,
    /// Something that is defined elsewhere was to be defined here.
    InvalidImportDefinition,
    /// A function cannot be compiled.
    Compilation,
    /// The object file cannot hold it.
    Backend,
}

/// One request to a module, with its answer.
#[allow(inconsistent_fields)]
pub enum Entry {
    /// To declare a function; the answer is its number.
    DeclareFunction {
        name: Seq<char>,
        visibility: Visibility,
        signature: SigView,
        id: Option<int>,
    },
    /// To declare a data object; the answer is its number.
    DeclareData { name: Seq<char>, visibility: Visibility, writable: bool, id: Option<int> },
    /// To give a function its code.
    DefineFunction { id: int, code: Code, done: bool },
    /// To give a data object its contents.
    DefineData { id: int, bytes: Seq<u8>, done: bool },
}

/// What was asked of a module, in order.
pub type Log = Seq<Entry>;

/// Whether an entry gave a function a number.
pub open spec fn declares_function(e: Entry, id: int, signature: SigView) -> bool {
    e matches Entry::DeclareFunction { id: i, signature: s, .. } && i == Some(id) && s == signature
}

/// Whether a number is that of a function with a signature.
pub open spec fn has_function(log: Log, id: int, signature: SigView) -> bool {
    exists|i: int| 0 <= i < log.len() && declares_function(#[trigger] log[i], id, signature)
}

/// The signature of the function of a number.
pub open spec fn signature_of(log: Log, id: int) -> SigView {
    choose|s: SigView| has_function(log, id, s)
}

/// Whether an entry gave a data object a number.
pub open spec fn declares_data(e: Entry, id: int) -> bool {
    e matches Entry::DeclareData { id: i, .. } && i == Some(id)
}

/// Whether a number is that of a data object.
pub open spec fn has_data(log: Log, id: int) -> bool {
    exists|i: int| 0 <= i < log.len() && declares_data(#[trigger] log[i], id)
}

/// Whether an entry made a name that of a function.
pub open spec fn names_function(e: Entry, name: Seq<char>) -> bool {
    e matches Entry::DeclareFunction { name: n, id: i, .. } && n == name && i is Some
}

/// Whether a name is that of a function.
pub open spec fn is_function_name(log: Log, name: Seq<char>) -> bool {
    exists|i: int| 0 <= i < log.len() && names_function(#[trigger] log[i], name)
}

/// Whether a name is that of a function with another signature.
pub open spec fn has_other_signature(log: Log, name: Seq<char>, signature: SigView) -> bool {
    exists|i: int|
        0 <= i < log.len() && names_function(#[trigger] log[i], name)
            && log[i]->signature != signature
}

/// Whether an entry made a name that of a data object.
pub open spec fn names_data(e: Entry, name: Seq<char>) -> bool {
    e matches Entry::DeclareData { name: n, id: i, .. } && n == name && i is Some
}

/// Whether a name is that of a data object.
pub open spec fn is_data_name(log: Log, name: Seq<char>) -> bool {
    exists|i: int| 0 <= i < log.len() && names_data(#[trigger] log[i], name)
}

/// Why a function cannot be declared, if it cannot.
pub open spec fn function_refusal(log: Log, name: Seq<char>, signature: SigView) -> Option<
    ModuleFailure,
> {
    if name.contains('\0') {
        Some(ModuleFailure::Backend)
    } else if is_data_name(log, name) {
        Some(ModuleFailure::IncompatibleDeclaration)
    } else if has_other_signature(log, name, signature) {
        Some(ModuleFailure::IncompatibleSignature)
    } else {
        None
    }
}

/// Why a data object cannot be declared, if it cannot.
pub open spec fn data_refusal(log: Log, name: Seq<char>) -> Option<ModuleFailure> {
    if name.contains('\0') {
        Some(ModuleFailure::Backend)
    } else if is_function_name(log, name) {
        Some(ModuleFailure::IncompatibleDeclaration)
    } else {
        None
    }
}

/// The number of the function of a name, if the name is that of a function.
pub open spec fn function_named(log: Log, name: Seq<char>) -> Option<int>
    decreases log.len(),
{
    if log.len() == 0 {
        None
    } else {
        match function_named(log.drop_last(), name) {
            Some(id) => Some(id),
            None => match log.last() {
                Entry::DeclareFunction { name: n, id, .. } => if n == name {
                    id
                } else {
                    None
                },
                _ => None,
            },
        }
    }
}

/// How many functions have a number.
pub open spec fn function_count(log: Log) -> int
    decreases log.len(),
{
    if log.len() == 0 {
        0
    } else {
        let before = function_count(log.drop_last());
        match log.last() {
            Entry::DeclareFunction { name, id: Some(_), .. } => if function_named(
                log.drop_last(),
                name,
            ) is None {
                before + 1
            } else {
                before
            },
            _ => before,
        }
    }
}

/// The answer to the declaration of a function: functions are numbered as their
/// names come up.
pub open spec fn function_answer(log: Log, name: Seq<char>, signature: SigView) -> Option<int> {
    if function_refusal(log, name, signature) is Some {
        None
    } else {
        match function_named(log, name) {
            Some(id) => Some(id),
            None => Some(function_count(log)),
        }
    }
}

/// The number of the data object of a name, if the name is that of data.
pub open spec fn data_named(log: Log, name: Seq<char>) -> Option<int>
    decreases log.len(),
{
    if log.len() == 0 {
        None
    } else {
        match data_named(log.drop_last(), name) {
            Some(id) => Some(id),
            None => match log.last() {
                Entry::DeclareData { name: n, id, .. } => if n == name {
                    id
                } else {
                    None
                },
                _ => None,
            },
        }
    }
}

/// How many data objects have a number.
pub open spec fn data_count(log: Log) -> int
    decreases log.len(),
{
    if log.len() == 0 {
        0
    } else {
        let before = data_count(log.drop_last());
        match log.last() {
            Entry::DeclareData { name, id: Some(_), .. } => if data_named(
                log.drop_last(),
                name,
            ) is None {
                before + 1
            } else {
                before
            },
            _ => before,
        }
    }
}

/// The answer to the declaration of a data object: data objects are numbered as
/// their names come up.
pub open spec fn data_answer(log: Log, name: Seq<char>) -> Option<int> {
    if data_refusal(log, name) is Some {
        None
    } else {
        match data_named(log, name) {
            Some(id) => Some(id),
            None => Some(data_count(log)),
        }
    }
}

/// Whether an entry says of a function that it is defined here. A declaration
/// does so even where it is refused for its signature.
pub open spec fn claims_function(e: Entry, name: Seq<char>) -> bool {
    e matches Entry::DeclareFunction { name: n, visibility: v, .. } && n == name && v
        != Visibility::Import
}

/// Whether two entries make the function of a number one that is defined here.
pub open spec fn owns(declared: Entry, claimed: Entry, id: int) -> bool {
    declared matches Entry::DeclareFunction { name: n, id: i, .. } && i == Some(id)
        && claims_function(claimed, n)
}

/// Whether the function of a number was said to be defined here.
pub open spec fn owned_function(log: Log, id: int) -> bool {
    exists|i: int, j: int|
        0 <= i < log.len() && 0 <= j < log.len() && owns(#[trigger] log[i], #[trigger] log[j], id)
}

/// Whether an entry gave a function a number, and granted that it is defined here.
pub open spec fn grants_function(e: Entry, id: int) -> bool {
    e matches Entry::DeclareFunction { id: i, visibility: v, .. } && i == Some(id) && v
        != Visibility::Import
}

/// Whether it was granted that the function of a number is defined here.
pub open spec fn granted_function(log: Log, id: int) -> bool {
    exists|i: int| 0 <= i < log.len() && grants_function(#[trigger] log[i], id)
}

/// Whether the data object of a number was said to be defined here.
pub open spec fn owned_data(log: Log, id: int) -> bool {
    exists|i: int|
        0 <= i < log.len() && declares_data(#[trigger] log[i], id) && log[i]->DeclareData_visibility
            != Visibility::Import
}

/// Whether an entry gave a function its code.
pub open spec fn defines_function(e: Entry, id: int) -> bool {
    e matches Entry::DefineFunction { id: i, done, .. } && i == id && done
}

/// Whether the function of a number has its code.
pub open spec fn defined_function(log: Log, id: int) -> bool {
    exists|i: int| 0 <= i < log.len() && defines_function(#[trigger] log[i], id)
}

/// Whether an entry gave a data object its contents.
pub open spec fn defines_data(e: Entry, id: int) -> bool {
    e matches Entry::DefineData { id: i, done, .. } && i == id && done
}

/// Whether the data object of a number has its contents.
pub open spec fn defined_data(log: Log, id: int) -> bool {
    exists|i: int| 0 <= i < log.len() && defines_data(#[trigger] log[i], id)
}

/// Why code cannot be given to the function of a number, if it cannot, where
/// `compiles` says whether the code can be compiled.
pub open spec fn code_refusal(log: Log, id: int, compiles: bool) -> Option<ModuleFailure> {
    if !compiles {
        Some(ModuleFailure::Compilation)
    } else if defined_function(log, id) {
        Some(ModuleFailure::DuplicateDefinition)
    } else {
        None
    }
}

/// Why contents cannot be given to the data object of a number, if they cannot.
pub open spec fn contents_refusal(log: Log, id: int) -> Option<ModuleFailure> {
    if !owned_data(log, id) {
        Some(ModuleFailure::InvalidImportDefinition)
    } else if defined_data(log, id) {
        Some(ModuleFailure::DuplicateDefinition)
    } else {
        None
    }
}

/// Whether a declaration goes with an earlier one: a name has one number and a
/// number one name, a function keeps its signature, and no name is that of a
/// function and of data.
pub open spec fn agrees(before: Entry, e: Entry) -> bool {
    match (before, e) {
        (
            Entry::DeclareFunction { name: m, id: Some(i), signature: r, .. },
            Entry::DeclareFunction { name: n, id: Some(j), signature: s, .. },
        ) => (m == n <==> i == j) && (i == j ==> r == s),
        (
            Entry::DeclareData { name: m, id: Some(i), .. },
            Entry::DeclareData { name: n, id: Some(j), .. },
        ) => m == n <==> i == j,
        (
            Entry::DeclareFunction { name: m, id: Some(_), .. },
            Entry::DeclareData { name: n, id: Some(_), .. },
        ) => m != n,
        (
            Entry::DeclareData { name: m, id: Some(_), .. },
            Entry::DeclareFunction { name: n, id: Some(_), .. },
        ) => m != n,
        (
            Entry::DefineFunction { id: i, done: true, .. },
            Entry::DefineFunction { id: j, done: true, .. },
        ) => i != j,
        (
            Entry::DefineData { id: i, done: true, .. },
            Entry::DefineData { id: j, done: true, .. },
        ) => i != j,
        _ => true,
    }
}

/// Whether an entry goes with all that came before.
pub open spec fn follows(log: Log, e: Entry) -> bool {
    forall|i: int| 0 <= i < log.len() ==> agrees(#[trigger] log[i], e)
}

/// Whether all entries go together.
pub open spec fn orderly(log: Log) -> bool {
    forall|i: int, j: int|
        0 <= i < j < log.len() ==> agrees(#[trigger] log[i], #[trigger] log[j])
}

/// Whether what a call on a builder makes known is there in a module.
pub open spec fn link_known(a: Action, log: Log) -> bool {
    match a {
        Action::LinkFunction(id, signature, _) => has_function(log, id, signature),
        Action::LinkData(id, _) => has_data(log, id),
        _ => true,
    }
}

/// Whether all that a function refers to is there in a module.
pub open spec fn links_known(h: History, log: Log) -> bool {
    forall|i: int| 0 <= i < h.len() ==> link_known((#[trigger] h[i]).0, log)
}

/// What was there for a function stays there.
pub proof fn lemma_links_push(h: History, log: Log, e: Entry)
    requires
        links_known(h, log),
    ensures
        links_known(h, log.push(e)),
{
    lemma_log_push(log, e);
    assert forall|i: int| 0 <= i < h.len() implies link_known((#[trigger] h[i]).0, log.push(e)) by {
        assert(link_known(h[i].0, log));
    }
}

/// A function keeps its signature.
pub proof fn lemma_signature_of(log: Log, id: int, s: SigView)
    requires
        orderly(log),
        has_function(log, id, s),
    ensures
        signature_of(log, id) == s,
{
    let u = signature_of(log, id);
    assert(has_function(log, id, u));
    let i = choose|i: int| 0 <= i < log.len() && declares_function(#[trigger] log[i], id, s);
    let j = choose|j: int| 0 <= j < log.len() && declares_function(#[trigger] log[j], id, u);
    if i < j {
        assert(agrees(log[i], log[j]));
    } else if j < i {
        assert(agrees(log[j], log[i]));
    }
}

pub proof fn lemma_orderly_push(log: Log, e: Entry)
    requires
        orderly(log),
        follows(log, e),
    ensures
        orderly(log.push(e)),
{
    let more = log.push(e);
    assert forall|i: int, j: int| 0 <= i < j < more.len() implies agrees(
        #[trigger] more[i],
        #[trigger] more[j],
    ) by {
        assert(more[i] == log[i]);
        if j < log.len() {
            assert(more[j] == log[j]);
        }
    }
}

/// What was declared stays declared.
pub proof fn lemma_log_push(log: Log, e: Entry)
    ensures
        forall|id: int, s: SigView| has_function(log, id, s) ==> has_function(log.push(e), id, s),
        forall|id: int| has_data(log, id) ==> has_data(log.push(e), id),
{
    let more = log.push(e);
    assert forall|id: int, s: SigView| has_function(log, id, s) implies has_function(
        more,
        id,
        s,
    ) by {
        let i = choose|i: int| 0 <= i < log.len() && declares_function(#[trigger] log[i], id, s);
        assert(declares_function(more[i], id, s));
    }
    assert forall|id: int| has_data(log, id) implies has_data(more, id) by {
        let i = choose|i: int| 0 <= i < log.len() && declares_data(#[trigger] log[i], id);
        assert(declares_data(more[i], id));
    }
}

} // verus!
