//! What a plan does when it is run.
//!
//! A plan is run on a machine that has a value for every place of the plan, the
//! variables, the parameters of the blocks, and memory. Every instruction does
//! what it stands for in mathematics; going to a block goes on at the place where
//! the plan switches to it.

use vstd::prelude::*;

use crate::ir::IrType;
use crate::meaning::{
    bits_down, bits_up, both_bits, either_bits, fractional, one_bits, signed_of, signed_quotient,
    signed_rest, truth, unsigned_quotient, unsigned_rest, whole, wrap, Mem, Val, World,
};
use crate::step::{Action, BinaryOp, IntCond};
use crate::tally::tally;

verus! {

/// A machine that runs a plan.
pub struct Config {
    /// The place that comes next.
    pub pc: int,
    /// What the function was called with.
    pub args: Seq<Val>,
    pub values: Map<int, Val>,
    pub vars: Map<int, Val>,
    pub params: Map<(int, int), Val>,
    pub mem: Mem,
}

impl Config {
    /// Going on, with a value for the place.
    pub open spec fn put(self, v: Val) -> Config {
        Config { pc: self.pc + 1, values: self.values.insert(self.pc, v), ..self }
    }

    /// Going on.
    pub open spec fn on(self) -> Config {
        Config { pc: self.pc + 1, ..self }
    }

    /// Going on, with a value for the place and other memory.
    pub open spec fn put_with(self, v: Val, mem: Mem) -> Config {
        Config { pc: self.pc + 1, values: self.values.insert(self.pc, v), mem, ..self }
    }

    /// Going on at some place.
    pub open spec fn at(self, pc: int) -> Config {
        Config { pc, ..self }
    }

    /// With a value for the parameter of a block.
    pub open spec fn hand(self, b: int, v: Val) -> Config {
        Config { params: self.params.insert((b, 0), v), ..self }
    }

    /// With a value for a variable.
    pub open spec fn set(self, var: int, v: Val) -> Config {
        Config { vars: self.vars.insert(var, v), ..self }
    }

    /// The values of some places.
    pub open spec fn values_of(self, xs: Seq<int>) -> Seq<Val> {
        Seq::new(xs.len(), |i: int| self.values[xs[i]])
    }
}

/// The machine that begins with a function.
pub open spec fn begin(args: Seq<Val>, mem: Mem) -> Config {
    Config {
        pc: 0,
        args,
        values: Map::empty(),
        vars: Map::empty(),
        params: Map::empty(),
        mem,
    }
}

/// Whether a plan returns a value from where a machine is.
pub open spec fn hands_back(p: Seq<Action>, c: Config, v: Val) -> bool {
    &&& 0 <= c.pc < p.len()
    &&& p[c.pc] is Return
    &&& c.values[p[c.pc]->Return_0] == v
}

/// The place where a plan goes on in a block.
pub open spec fn target(p: Seq<Action>, b: int) -> int {
    choose|q: int| 0 <= q < p.len() && #[trigger] p[q] == Action::SwitchToBlock(b)
}

/// Whether a plan switches to every block at most once.
pub open spec fn once(p: Seq<Action>) -> bool {
    forall|q: int, r: int|
        0 <= q < p.len() && 0 <= r < p.len() && #[trigger] p[q] is SwitchToBlock && #[trigger] p[r]
            == p[q] ==> q == r
}

/// What an instruction on two integers gives, where both are of one type.
pub open spec fn on_integers(x: Val, y: Val, v: Option<Val>) -> Option<Val> {
    if x.t == y.t && whole(x.t) {
        v
    } else {
        None
    }
}

/// What an instruction on two numbers gives, where both are of one type.
pub open spec fn on_floats(w: World, key: char, x: Val, y: Val) -> Option<Val> {
    if x.t == y.t && fractional(x.t) {
        Some(Val { t: x.t, bits: (w.float)(key, x.t, x.bits, y.bits) })
    } else {
        None
    }
}

/// What an instruction on bits gives.
pub open spec fn on_bits(x: Val, y: Val, v: Val) -> Option<Val> {
    if x.t == y.t && !fractional(x.t) {
        Some(v)
    } else {
        None
    }
}

/// What a shift gives.
pub open spec fn on_shift(x: Val, y: Val, v: Val) -> Option<Val> {
    if whole(x.t) && whole(y.t) {
        Some(v)
    } else {
        None
    }
}

/// What an instruction with two operands gives, if it does not stop the program.
pub open spec fn instruction(w: World, op: BinaryOp, x: Val, y: Val) -> Option<Val> {
    match op {
        BinaryOp::Iadd => on_integers(x, y, Some(wrap(x.t, x.bits + y.bits))),
        BinaryOp::Isub => on_integers(x, y, Some(wrap(x.t, x.bits - y.bits))),
        BinaryOp::Imul => on_integers(x, y, Some(wrap(x.t, x.bits * y.bits))),
        BinaryOp::Udiv => on_integers(x, y, unsigned_quotient(x, y)),
        BinaryOp::Sdiv => on_integers(x, y, signed_quotient(x, y)),
        BinaryOp::Urem => on_integers(x, y, unsigned_rest(x, y)),
        BinaryOp::Srem => on_integers(x, y, signed_rest(x, y)),
        BinaryOp::Fadd => on_floats(w, '+', x, y),
        BinaryOp::Fsub => on_floats(w, '-', x, y),
        BinaryOp::Fmul => on_floats(w, '*', x, y),
        BinaryOp::Fdiv => on_floats(w, '/', x, y),
        BinaryOp::Band => on_bits(x, y, both_bits(x, y)),
        BinaryOp::Bor => on_bits(x, y, either_bits(x, y)),
        BinaryOp::Bxor => on_bits(x, y, one_bits(x, y)),
        BinaryOp::Ishl => on_shift(x, y, bits_up(x, y)),
        BinaryOp::Ushr => on_shift(x, y, bits_down(x, y)),
    }
}

/// Whether two integers compare as a condition says.
pub open spec fn comparison(c: IntCond, x: Val, y: Val) -> bool {
    match c {
        IntCond::SignedLessThan => signed_of(x) < signed_of(y),
        IntCond::UnsignedLessThan => x.bits < y.bits,
        IntCond::UnsignedLessThanOrEqual => x.bits <= y.bits,
    }
}

/// The address of the stack slot that is made at a place: slots are told apart by
/// how many were made before.
pub open spec fn slot(w: World, p: Seq<Action>, s: int) -> int {
    (w.slot)(tally(p.take(s), -1).slots, p[s]->CreateStackSlot_0 as int)
}

/// How many data objects were declared before a place.
pub open spec fn texts_before(p: Seq<Action>, d: int) -> int {
    tally(p.take(d), -1).texts
}

/// The bytes of the data object that is declared at a place: it is given them as
/// soon as it is declared.
pub open spec fn data(p: Seq<Action>, d: int) -> Option<Seq<u8>> {
    if p[d] is DeclareData && p[d + 1] is DefineData && p[d + 1]->DefineData_0 == d {
        Some(p[d + 1]->DefineData_1)
    } else {
        None
    }
}

/// The machine after one more step, if the plan does not end or stop there.
pub open spec fn step(w: World, p: Seq<Action>, c: Config) -> Option<Config> {
    if !(0 <= c.pc < p.len()) {
        None
    } else {
        match p[c.pc] {
            Action::AppendFunctionParams(b) => Some(
                Config {
                    params: c.params.union_prefer_right(
                        Map::new(
                            |k: (int, int)| k.0 == b && 0 <= k.1 < c.args.len(),
                            |k: (int, int)| c.args[k.1],
                        ),
                    ),
                    ..c
                }.on(),
            ),
            Action::BlockParam(b, i) => Some(c.put(c.params[(b, i)])),
            Action::DefVar(v, x) => Some(c.set(v, c.values[x]).on()),
            Action::UseVar(v) => Some(c.put(c.vars[v])),
            Action::Bconst(t, b) => Some(c.put(Val { t, bits: truth(b).bits })),
            Action::Iconst(t, n) => Some(c.put(wrap(t, n as int))),
            Action::F32const(n) => Some(c.put(Val { t: IrType::F32, bits: n as int })),
            Action::F64const(n) => Some(c.put(Val { t: IrType::F64, bits: n as int })),
            Action::FuncAddr(t, f) => Some(
                c.put(Val { t, bits: (w.function)(p[p[f]->ImportFunction_0]->DeclareFunction_0) }),
            ),
            Action::Binary(op, x, y) => match instruction(w, op, c.values[x], c.values[y]) {
                Some(v) => Some(c.put(v)),
                None => None,
            },
            Action::ImulImm(x, n) => Some(c.put(wrap(c.values[x].t, c.values[x].bits * n))),
            Action::CompareInt(how, x, y) => Some(
                c.put(truth(comparison(how, c.values[x], c.values[y]))),
            ),
            Action::CompareIntImm(how, x, n) => Some(
                c.put(truth(comparison(how, c.values[x], wrap(c.values[x].t, n as int)))),
            ),
            Action::FloatLessThan(x, y) => Some(
                c.put(
                    truth((w.float_less)(c.values[x].t, c.values[x].bits, c.values[y].bits)),
                ),
            ),
            Action::Load(t, x, o) => Some(
                c.put(Val { t, bits: (w.load)(c.mem, t, c.values[x].bits + o) }),
            ),
            Action::Store(v, x, o) => Some(
                Config {
                    mem: (w.store)(
                        c.mem,
                        c.values[v].t,
                        c.values[x].bits + o,
                        c.values[v].bits,
                    ),
                    ..c
                }.on(),
            ),
            Action::Brz(x, b) => Some(
                if c.values[x].bits == 0 {
                    c.at(target(p, b))
                } else {
                    c.on()
                },
            ),
            Action::Jump(b, x) => Some(
                match x {
                    Some(x) => c.hand(b, c.values[x]).at(target(p, b)),
                    None => c.at(target(p, b)),
                },
            ),
            Action::Call(f, xs) => {
                let callee = p[p[f]->ImportFunction_0];
                let r = (w.call)(
                    c.mem,
                    callee->DeclareFunction_0,
                    callee->DeclareFunction_1,
                    callee->DeclareFunction_2,
                    c.values_of(xs),
                );
                Some(c.put_with(Val { t: callee->DeclareFunction_2, bits: r.0 }, r.1))
            },
            Action::CallIndirect(s, x, xs) => {
                let r = (w.call_at)(
                    c.mem,
                    c.values[x].bits,
                    p[s]->ImportSignature_0,
                    p[s]->ImportSignature_1,
                    c.values_of(xs),
                );
                Some(c.put_with(Val { t: p[s]->ImportSignature_1, bits: r.0 }, r.1))
            },
            Action::InstResult(i) => Some(c.put(c.values[i])),
            Action::GlobalValue(t, g) => match data(p, p[g]->ImportData_0) {
                Some(bytes) => Some(
                    c.put(Val { t, bits: (w.text)(texts_before(p, p[g]->ImportData_0), bytes) }),
                ),
                None => None,
            },
            Action::StackAddr(t, s, o) => Some(c.put(Val { t, bits: slot(w, p, s) + o })),
            Action::StackStore(x, s, o) => Some(
                Config {
                    mem: (w.store)(
                        c.mem,
                        c.values[x].t,
                        slot(w, p, s) + o,
                        c.values[x].bits,
                    ),
                    ..c
                }.on(),
            ),
            Action::TrapzStackOverflow(x) => if c.values[x].bits == 0 {
                None
            } else {
                Some(c.on())
            },
            Action::Return(_) => None,
            _ => Some(c.on()),
        }
    }
}

/// The machine after some steps.
pub open spec fn run(w: World, p: Seq<Action>, c: Config, n: nat) -> Option<Config>
    decreases n,
{
    if n == 0 {
        Some(c)
    } else {
        match run(w, p, c, (n - 1) as nat) {
            Some(d) => step(w, p, d),
            None => None,
        }
    }
}

/// Whether a machine comes to be another one.
pub open spec fn runs(w: World, p: Seq<Action>, c: Config, d: Config) -> bool {
    exists|n: nat| run(w, p, c, n) == Some(d)
}

pub proof fn lemma_here(w: World, p: Seq<Action>, c: Config)
    ensures
        runs(w, p, c, c),
{
    assert(run(w, p, c, 0) == Some(c));
}

/// One more step.
pub proof fn lemma_then(w: World, p: Seq<Action>, c: Config, d: Config, e: Config)
    requires
        runs(w, p, c, d),
        step(w, p, d) == Some(e),
    ensures
        runs(w, p, c, e),
{
    let n = choose|n: nat| run(w, p, c, n) == Some(d);
    assert(run(w, p, c, n + 1) == Some(e));
}

/// A run goes on where another one ends.
pub proof fn lemma_join(w: World, p: Seq<Action>, c: Config, d: Config, e: Config)
    requires
        runs(w, p, c, d),
        runs(w, p, d, e),
    ensures
        runs(w, p, c, e),
{
    let n = choose|n: nat| run(w, p, d, n) == Some(e);
    lemma_join_steps(w, p, c, d, e, n);
}

proof fn lemma_join_steps(w: World, p: Seq<Action>, c: Config, d: Config, e: Config, n: nat)
    requires
        runs(w, p, c, d),
        run(w, p, d, n) == Some(e),
    ensures
        runs(w, p, c, e),
    decreases n,
{
    if n > 0 {
        let f = run(w, p, d, (n - 1) as nat)->0;
        lemma_join_steps(w, p, c, d, f, (n - 1) as nat);
        lemma_then(w, p, c, f, e);
    }
}

/// The place where a plan goes on in a block that it switches to.
pub proof fn lemma_target(p: Seq<Action>, b: int, q: int)
    requires
        once(p),
        0 <= q < p.len(),
        p[q] == Action::SwitchToBlock(b),
    ensures
        target(p, b) == q,
{
    let r = target(p, b);
    assert(p[r] == p[q]);
}

} // verus!
