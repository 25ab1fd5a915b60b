//! The rules of the function builder: which calls it takes, and when.
//!
//! The builder checks most of these rules by assertions, so a call that breaks
//! one of them does not return; the others keep the compiler from functions that
//! it cannot take. What the builder is in the middle of is a function of
//! the calls that were made on it before.

use vstd::prelude::*;

use crate::env::number_limit;
use crate::ir::IrType;
use crate::step::{Action, BinaryOp, SigView};

verus! {

/// How far a block has come.
pub enum Fill {
    /// It has only been made.
    Fresh,
    /// It was gone to, and holds no instruction yet.
    Empty,
    /// It holds instructions, and its end is still missing.
    Open,
    /// It ends in a jump or a return.
    Filled,
}

/// How far a function has come.
pub enum Phase {
    Unstarted,
    Building,
    Sealed,
    Finished,
}

/// How many of each thing there are: what is made next gets that number.
pub struct Counts {
    pub blocks: int,
    pub values: int,
    pub instructions: int,
    pub slots: int,
    pub signatures: int,
    pub functions: int,
    pub globals: int,
}

/// What the builder is in the middle of.
pub struct State {
    pub phase: Phase,
    /// The parameters of the function.
    pub params: Seq<IrType>,
    /// The values that are known, with their types.
    pub values: Map<int, IrType>,
    pub blocks: Map<int, Fill>,
    /// The types of the parameters that were given to each block.
    pub block_params: Map<int, Seq<IrType>>,
    /// The blocks that can be gone back to: they were jumped to before they were
    /// gone to, and are in no loop that has ended.
    pub entered: Set<int>,
    /// How many blocks were gone to.
    pub turns: int,
    /// How many blocks had been gone to when a block was made.
    pub born: Map<int, int>,
    /// How many blocks had been gone to when a block was gone to itself.
    pub gone: Map<int, int>,
    /// The block that instructions are added to.
    pub current: Option<int>,
    /// Whether the current block already holds a conditional branch.
    pub branched: bool,
    /// The variables, with their types.
    pub variables: Map<int, IrType>,
    /// How many variables there are.
    pub variable_count: nat,
    /// The value that a variable is known to have at the end of a block.
    pub known: Map<(int, int), int>,
    /// The stack slots, with their sizes in bytes.
    pub slots: Map<int, int>,
    /// Whether a variable was looked up in a block that did not know it.
    pub missed: bool,
    /// What the signatures that were made known return.
    pub signatures: Map<int, IrType>,
    /// What the functions that were made known return.
    pub functions: Map<int, IrType>,
    pub globals: Set<int>,
    /// The calls that were placed, with the types of their results.
    pub calls: Map<int, IrType>,
    /// The values that the parameters given to blocks are.
    pub param_values: Map<(int, int), int>,
    /// The values that the results of calls are.
    pub call_values: Map<int, int>,
    /// How many parameters each block has, those for variables among them.
    pub param_count: Map<int, int>,
    /// How many variables are known to have a value at the end of each block.
    pub known_count: Map<int, int>,
    pub counts: Counts,
}

/// The state before anything was done.
pub open spec fn unstarted() -> State {
    State {
        phase: Phase::Unstarted,
        params: seq![],
        values: Map::empty(),
        blocks: Map::empty(),
        block_params: Map::empty(),
        entered: Set::empty(),
        turns: 0,
        born: Map::empty(),
        gone: Map::empty(),
        current: None,
        branched: false,
        variables: Map::empty(),
        variable_count: 0,
        known: Map::empty(),
        slots: Map::empty(),
        missed: false,
        signatures: Map::empty(),
        functions: Map::empty(),
        globals: Set::empty(),
        calls: Map::empty(),
        param_values: Map::empty(),
        call_values: Map::empty(),
        param_count: Map::empty(),
        known_count: Map::empty(),
        counts: Counts {
            blocks: 0,
            values: 0,
            instructions: 0,
            slots: 0,
            signatures: 0,
            functions: 0,
            globals: 0,
        },
    }
}

/// The values of parameters of a block that are made one after the other.
pub open spec fn numbered(b: int, first: int, count: int, value: int) -> Map<(int, int), int> {
    Map::new(
        |k: (int, int)| k.0 == b && first <= k.1 < first + count,
        |k: (int, int)| value + k.1 - first,
    )
}

/// How many parameters a block can have: they are numbered in sixteen bits.
pub open spec fn param_limit() -> int {
    0x10000
}

/// Whether an instruction works on single bits, which only integers and truth
/// values have in the machine.
pub open spec fn bitwise(op: BinaryOp) -> bool {
    op is Band || op is Bor || op is Bxor
}

/// What can be added to a block.
pub enum Placed {
    Nothing,
    Instruction,
    /// A conditional branch; a jump has to follow.
    Branch,
    Jump,
    Return,
}

/// One if something holds, and otherwise nothing.
pub open spec fn one_if(b: bool) -> int {
    if b {
        1
    } else {
        0
    }
}

/// What an action adds to the current block.
pub open spec fn placed(a: Action) -> Placed {
    match a {
        Action::Bconst(..) | Action::Iconst(..) | Action::F32const(..) | Action::F64const(..)
        | Action::FuncAddr(..) | Action::GlobalValue(..) | Action::StackStore(..)
        | Action::StackAddr(..) | Action::Binary(..) | Action::ImulImm(..) | Action::CompareInt(..)
        | Action::CompareIntImm(..) | Action::FloatLessThan(..) | Action::TrapzStackOverflow(..)
        | Action::Load(..) | Action::Store(..) | Action::Call(..) | Action::CallIndirect(..) =>
            Placed::Instruction,
        Action::Brz(..) => Placed::Branch,
        Action::Jump(..) => Placed::Jump,
        Action::Return(..) => Placed::Return,
        _ => Placed::Nothing,
    }
}

impl State {
    /// Whether an instruction can be added to the current block.
    pub open spec fn can_place(self, p: Placed) -> bool {
        match p {
            Placed::Nothing => true,
            _ => {
                &&& self.current is Some
                &&& self.blocks.contains_key(self.current->0)
                &&& !(self.blocks[self.current->0] is Filled)
                &&& self.branched ==> p is Jump
            },
        }
    }

    /// Whether a value is known.
    pub open spec fn has(self, x: int) -> bool {
        self.values.contains_key(x)
    }

    /// Whether some values are known.
    pub open spec fn has_all(self, xs: Seq<int>) -> bool {
        forall|i: int| 0 <= i < xs.len() ==> self.has(#[trigger] xs[i])
    }

    /// Whether a block can take a parameter for every variable that is not known
    /// to have a value at its end.
    pub open spec fn roomy(self, b: int) -> bool {
        self.param_count[b] + self.variable_count - self.known_count[b] <= param_limit()
    }

    /// Whether every block can.
    pub open spec fn all_roomy(self) -> bool {
        forall|b: int| #[trigger] self.blocks.contains_key(b) ==> self.roomy(b)
    }

    /// Whether a block was gone to after another one.
    pub open spec fn gone_since(self, b: int, h: int) -> bool {
        self.gone.contains_key(b) && self.gone[b] > self.gone[h]
    }

    /// Whether a block can be jumped to: it is yet to be gone to, or a loop can end
    /// that begins with it. Every loop is entered at its first block alone: the
    /// blocks that were gone to since were made since, and what came before could
    /// not jump to them.
    pub open spec fn can_enter(self, h: int) -> bool {
        &&& self.blocks.contains_key(h)
        &&& self.blocks[h] is Fresh || {
            &&& self.entered.contains(h)
            &&& forall|b: int| #[trigger]
                self.blocks.contains_key(b) && self.gone_since(b, h) ==> self.born[b]
                    > self.gone[h]
        }
    }

    /// The blocks that can be gone back to after a jump: the one that is jumped to,
    /// and not those of a loop that the jump ends.
    pub open spec fn enter(self, h: int) -> Set<int> {
        if self.blocks[h] is Fresh {
            self.entered.insert(h)
        } else {
            self.entered.filter(|b: int| !self.gone_since(b, h))
        }
    }

    /// Whether a value is an address.
    pub open spec fn has_address(self, x: int) -> bool {
        self.has(x) && self.values[x] == IrType::I64
    }

    /// Whether every block has its end.
    pub open spec fn all_filled(self) -> bool {
        forall|b: int| #[trigger] self.blocks.contains_key(b) ==> self.blocks[b] is Filled
    }

    /// Whether what an action speaks of is there, and in the state that the action needs.
    pub open spec fn takes(self, a: Action) -> bool {
        match a {
            Action::SwitchToBlock(b) => {
                &&& self.blocks.contains_key(b)
                &&& self.blocks[b] is Fresh
                &&& self.current is Some ==> !(self.blocks[self.current->0] is Open)
            },
            Action::AppendFunctionParams(b) => {
                &&& self.blocks.contains_key(b)
                &&& self.current is None
                &&& self.param_count[b] + self.params.len() <= param_limit()
            },
            Action::AppendBlockParam(b, _) => {
                &&& self.blocks.contains_key(b)
                &&& self.blocks[b] is Fresh
                &&& self.block_params[b].len() == 0
                &&& self.param_count[b] < param_limit()
            },
            Action::BlockParam(b, i) => {
                &&& self.blocks.contains_key(b)
                &&& 0 <= i < self.block_params[b].len()
            },
            Action::DeclareVar(v, _) => {
                &&& !self.variables.contains_key(v)
                &&& 0 <= v < number_limit()
            },
            Action::DefVar(v, x) => {
                &&& self.current is Some
                &&& self.variables.contains_key(v)
                &&& self.has(x)
                &&& self.variables[v] == self.values[x]
            },
            Action::UseVar(v) => {
                &&& self.current is Some
                &&& self.variables.contains_key(v)
                &&& self.known.contains_key((self.current->0, v)) || self.roomy(self.current->0)
            },
            Action::FuncAddr(_, f) => self.functions.contains_key(f),
            Action::GlobalValue(_, d) => self.globals.contains(d),
            Action::StackStore(x, s, o) => {
                &&& self.has(x)
                &&& self.slots.contains_key(s)
                &&& 0 <= o
                &&& o + 8 <= self.slots[s]
            },
            Action::StackAddr(_, s, o) => {
                &&& self.slots.contains_key(s)
                &&& 0 <= o <= self.slots[s]
            },
            Action::Binary(op, x, y) => {
                &&& self.has(x)
                &&& self.has(y)
                &&& bitwise(op) ==> self.values[x] != IrType::F32 && self.values[x] != IrType::F64
            },
            Action::ImulImm(x, _) => self.has(x),
            Action::CompareInt(_, x, y) => self.has(x) && self.has(y),
            Action::CompareIntImm(_, x, _) => self.has(x),
            Action::FloatLessThan(x, y) => self.has(x) && self.has(y),
            Action::TrapzStackOverflow(x) => self.has(x),
            Action::Load(_, p, _) => self.has_address(p),
            Action::Store(x, p, _) => self.has(x) && self.has_address(p),
            Action::Brz(c, b) => self.has(c) && self.can_enter(b),
            Action::Jump(b, x) => {
                &&& self.can_enter(b)
                &&& x is Some ==> self.has(x->0)
            },
            Action::Return(x) => self.has(x),
            Action::Call(f, xs) => self.functions.contains_key(f) && self.has_all(xs),
            Action::CallIndirect(s, x, xs) => {
                &&& self.signatures.contains_key(s)
                &&& self.has(x)
                &&& self.has_all(xs)
            },
            Action::InstResult(i) => self.calls.contains_key(i),
            _ => true,
        }
    }

    /// Whether the builder takes an action.
    pub open spec fn accepts(self, a: Action) -> bool {
        match a {
            Action::Begin(..) => self.phase is Unstarted,
            Action::SealAllBlocks => {
                &&& self.phase is Building
                &&& self.current is Some
                &&& self.all_filled()
                &&& self.missed ==> self.all_roomy()
            },
            Action::Finalize => self.phase is Sealed && self.all_filled(),
            _ => self.phase is Building && self.takes(a) && self.can_place(placed(a)),
        }
    }

    /// The type of the value that an action gives, if it gives one.
    pub open spec fn result(self, a: Action) -> Option<IrType> {
        match a {
            Action::AppendBlockParam(_, t) => Some(t),
            Action::BlockParam(b, i) => Some(self.block_params[b][i]),
            Action::UseVar(v) => Some(self.variables[v]),
            Action::Bconst(t, _) => Some(t),
            Action::Iconst(t, _) => Some(t),
            Action::F32const(_) => Some(IrType::F32),
            Action::F64const(_) => Some(IrType::F64),
            Action::FuncAddr(t, _) => Some(t),
            Action::GlobalValue(t, _) => Some(t),
            Action::StackAddr(t, _, _) => Some(t),
            Action::Binary(_, x, _) => Some(self.values[x]),
            Action::ImulImm(x, _) => Some(self.values[x]),
            Action::CompareInt(..) | Action::CompareIntImm(..) | Action::FloatLessThan(..) => {
                Some(IrType::B1)
            },
            Action::Load(t, _, _) => Some(t),
            Action::InstResult(i) => Some(self.calls[i]),
            _ => None,
        }
    }

    /// Whether an action looks up a variable that gets a parameter of the current
    /// block for it.
    pub open spec fn misses(self, a: Action) -> bool {
        a matches Action::UseVar(v) && !self.known.contains_key((self.current->0, v))
    }

    /// The number of what an action gives, zero where it gives nothing: things of
    /// a kind are numbered as they are made, and what is looked up has the number
    /// that it had before. A variable is the value that was last given to it in
    /// the current block, or was last looked up there; where it was neither, the
    /// block gets a parameter for it.
    pub open spec fn number(self, a: Action) -> int {
        match a {
            Action::CreateBlock => self.counts.blocks,
            Action::CreateStackSlot(_) => self.counts.slots,
            Action::ImportSignature(..) => self.counts.signatures,
            Action::ImportFunction(..) | Action::LinkFunction(..) => self.counts.functions,
            Action::ImportData(_) | Action::LinkData(..) => self.counts.globals,
            Action::Call(..) | Action::CallIndirect(..) => self.counts.instructions,
            Action::UseVar(v) => if self.misses(a) {
                self.counts.values
            } else {
                self.known[(self.current->0, v)]
            },
            Action::BlockParam(b, i) => self.param_values[(b, i)],
            Action::InstResult(i) => self.call_values[i],
            _ => if self.result(a) is Some {
                self.counts.values
            } else {
                0
            },
        }
    }

    /// Whether an action gives `r`. What is made is new, and what is looked up
    /// keeps its type.
    pub open spec fn gives(self, a: Action, r: int) -> bool {
        &&& r == self.number(a)
        &&& match a {
            Action::CreateBlock => !self.blocks.contains_key(r),
            Action::CreateStackSlot(_) => !self.slots.contains_key(r),
            Action::ImportSignature(..) => !self.signatures.contains_key(r),
            Action::ImportFunction(..) | Action::LinkFunction(..) => {
                !self.functions.contains_key(r)
            },
            Action::ImportData(_) | Action::LinkData(..) => !self.globals.contains(r),
            Action::Call(..) | Action::CallIndirect(..) => !self.calls.contains_key(r),
            Action::UseVar(_) | Action::BlockParam(..) | Action::InstResult(_) => {
                self.has(r) ==> Some(self.values[r]) == self.result(a)
            },
            _ => self.result(a) is Some ==> !self.has(r),
        }
    }

    /// How many values an action makes.
    pub open spec fn made(self, a: Action) -> int {
        match a {
            Action::AppendFunctionParams(_) => self.params.len() as int,
            Action::Call(..) | Action::CallIndirect(..) => 1,
            Action::BlockParam(..) | Action::InstResult(_) => 0,
            Action::UseVar(_) => if self.misses(a) {
                1
            } else {
                0
            },
            _ => if self.result(a) is Some {
                1
            } else {
                0
            },
        }
    }

    /// How many of each thing there are after an action.
    pub open spec fn counted(self, a: Action) -> Counts {
        let c = self.counts;
        Counts {
            blocks: c.blocks + one_if(a is CreateBlock),
            values: c.values + self.made(a),
            instructions: c.instructions + one_if(!(placed(a) is Nothing)),
            slots: c.slots + one_if(a is CreateStackSlot),
            signatures: c.signatures + one_if(
                a is ImportSignature || a is ImportFunction || a is LinkFunction,
            ),
            functions: c.functions + one_if(a is ImportFunction || a is LinkFunction),
            globals: c.globals + one_if(a is ImportData || a is LinkData),
        }
    }

    /// The values that are known at the ends of blocks, with one more for a
    /// variable in the current block.
    pub open spec fn learn(self, v: int, x: int) -> State {
        let b = self.current->0;
        State {
            known: self.known.insert((b, v), x),
            known_count: if self.known.contains_key((b, v)) {
                self.known_count
            } else {
                self.known_count.insert(b, self.known_count[b] + 1)
            },
            ..self
        }
    }

    /// With more parameters for a block.
    pub open spec fn widen(self, b: int, n: int) -> State {
        State { param_count: self.param_count.insert(b, self.param_count[b] + n), ..self }
    }

    /// The state after an action that gave `r`.
    pub open spec fn next(self, a: Action, r: int) -> State {
        let values = match self.result(a) {
            Some(t) => self.values.insert(r, t),
            None => self.values,
        };
        let blocks = match placed(a) {
            Placed::Nothing => self.blocks,
            Placed::Jump | Placed::Return => self.blocks.insert(self.current->0, Fill::Filled),
            _ => self.blocks.insert(self.current->0, Fill::Open),
        };
        let s = State {
            values,
            blocks,
            branched: self.branched || placed(a) is Branch,
            missed: self.missed || self.misses(a),
            counts: self.counted(a),
            ..self
        };
        match a {
            Action::Begin(p, _) => State { phase: Phase::Building, params: p, ..s },
            Action::CreateBlock => State {
                blocks: s.blocks.insert(r, Fill::Fresh),
                block_params: s.block_params.insert(r, seq![]),
                param_count: s.param_count.insert(r, 0),
                known_count: s.known_count.insert(r, 0),
                born: s.born.insert(r, s.turns),
                ..s
            },
            Action::SwitchToBlock(b) => State {
                current: Some(b),
                branched: false,
                blocks: s.blocks.insert(b, Fill::Empty),
                gone: s.gone.insert(b, s.turns),
                turns: s.turns + 1,
                ..s
            },
            Action::AppendFunctionParams(b) => State {
                block_params: s.block_params.insert(b, s.block_params[b] + s.params),
                param_values: s.param_values.union_prefer_right(
                    numbered(
                        b,
                        s.block_params[b].len() as int,
                        s.params.len() as int,
                        self.counts.values,
                    ),
                ),
                ..s.widen(b, s.params.len() as int)
            },
            Action::AppendBlockParam(b, t) => State {
                block_params: s.block_params.insert(b, s.block_params[b].push(t)),
                param_values: s.param_values.insert((b, s.block_params[b].len() as int), r),
                ..s.widen(b, 1)
            },
            Action::DeclareVar(v, t) => State {
                variables: s.variables.insert(v, t),
                variable_count: s.variable_count + 1,
                ..s
            },
            Action::DefVar(v, x) => s.learn(v, x),
            Action::UseVar(v) => if self.misses(a) {
                s.widen(s.current->0, 1).learn(v, r)
            } else {
                s.learn(v, r)
            },
            Action::CreateStackSlot(n) => State { slots: s.slots.insert(r, n as int), ..s },
            Action::ImportSignature(_, t) => State { signatures: s.signatures.insert(r, t), ..s },
            Action::ImportFunction(_, t) => State { functions: s.functions.insert(r, t), ..s },
            Action::LinkFunction(_, g, _) => State {
                functions: s.functions.insert(r, g.returns[0]),
                ..s
            },
            Action::ImportData(_) | Action::LinkData(..) => State {
                globals: s.globals.insert(r),
                ..s
            },
            Action::Call(f, _) => State {
                calls: s.calls.insert(r, s.functions[f]),
                call_values: s.call_values.insert(r, self.counts.values),
                ..s
            },
            Action::CallIndirect(g, _, _) => State {
                calls: s.calls.insert(r, s.signatures[g]),
                call_values: s.call_values.insert(r, self.counts.values),
                ..s
            },
            Action::Brz(_, b) => State { entered: self.enter(b), ..s },
            Action::Jump(b, _) => State { entered: self.enter(b), ..s },
            Action::SealAllBlocks => State { phase: Phase::Sealed, ..s },
            Action::Finalize => State { phase: Phase::Finished, ..s },
            _ => s,
        }
    }
}

/// The calls that were made, each with what it gave.
pub type History = Seq<(Action, int)>;

/// A function that is being built, or was built.
pub struct Code {
    pub signature: SigView,
    /// The calls that built it.
    pub body: History,
}

/// The state that some calls lead to.
pub open spec fn replay(h: History) -> State
    decreases h.len(),
{
    if h.len() == 0 {
        unstarted()
    } else {
        replay(h.drop_last()).next(h.last().0, h.last().1)
    }
}

/// Whether every call was one that the builder takes, and gave what it can give.
pub open spec fn lawful(h: History) -> bool
    decreases h.len(),
{
    h.len() == 0 || {
        let s = replay(h.drop_last());
        &&& lawful(h.drop_last())
        &&& s.accepts(h.last().0)
        &&& s.gives(h.last().0, h.last().1)
    }
}

/// The state that planned actions lead to, where each of them gives its place.
#[verifier::opaque]
pub open spec fn state(acts: Seq<Action>) -> State
    decreases acts.len(),
{
    if acts.len() == 0 {
        unstarted()
    } else {
        state(acts.drop_last()).next(acts.last(), acts.len() - 1)
    }
}

/// Whether what an action needs of the module was declared by an earlier one.
pub open spec fn declared(acts: Seq<Action>, a: Action) -> bool {
    match a {
        Action::ImportFunction(f, t) => {
            &&& 0 <= f < acts.len()
            &&& acts[f] is DeclareFunction
            &&& acts[f]->DeclareFunction_2 == t
        },
        Action::ImportData(d) | Action::DefineData(d, _) => {
            &&& 0 <= d < acts.len()
            &&& acts[d] is DeclareData
        },
        _ => true,
    }
}

/// Whether the builder takes every one of some planned actions.
#[verifier::opaque]
pub open spec fn accepted(acts: Seq<Action>) -> bool
    decreases acts.len(),
{
    acts.len() == 0 || {
        &&& accepted(acts.drop_last())
        &&& state(acts.drop_last()).accepts(acts.last())
        &&& declared(acts.drop_last(), acts.last())
    }
}

} // verus!
