//! The variables that are in scope while a function is lowered.

use vstd::prelude::*;

use crate::ir::IrType;
use crate::text::same_text;

verus! {

/// The names of one scope, with the numbers of the variables they stand for.
pub type Scope = Map<Seq<char>, int>;

/// The variables of a function, as contracts speak of them.
pub struct EnvView {
    /// The scopes, the innermost one last.
    pub scopes: Seq<Scope>,
    /// What the numbers given out so far are for: the type of a variable, or
    /// nothing where a number only names a data object.
    pub types: Seq<Option<IrType>>,
    /// Whether the function keeps to one block, in which every variable is given
    /// its value before it is used.
    pub lone: bool,
}

/// How many variables a function of several blocks can have: every one of them
/// may need a parameter of a block that has one of its own, and parameters of
/// blocks are numbered in sixteen bits.
pub const VARIABLE_LIMIT: usize = 0xffff;

/// The same, as contracts speak of it.
pub open spec fn variable_limit() -> nat {
    VARIABLE_LIMIT as nat
}

/// How large the numbers of variables can be: the builder keeps tables that have
/// a row for each number. A function that is small enough to be compiled has no
/// use for more.
pub const NUMBER_LIMIT: usize = 0x100_0000;

/// The same, as contracts speak of it.
pub open spec fn number_limit() -> nat {
    NUMBER_LIMIT as nat
}

/// How many of some numbers were given to variables.
pub open spec fn variables(types: Seq<Option<IrType>>) -> nat
    decreases types.len(),
{
    if types.len() == 0 {
        0
    } else if types.last() is Some {
        variables(types.drop_last()) + 1
    } else {
        variables(types.drop_last())
    }
}

/// The variable that a name stands for: the one in the innermost scope that has the name.
pub open spec fn resolve(scopes: Seq<Scope>, name: Seq<char>) -> Option<int>
    decreases scopes.len(),
{
    if scopes.len() == 0 {
        None
    } else if scopes.last().contains_key(name) {
        Some(scopes.last()[name])
    } else {
        resolve(scopes.drop_last(), name)
    }
}

impl EnvView {
    /// The number that is given out next.
    pub open spec fn next(self) -> int {
        self.types.len() as int
    }

    /// With a new scope.
    pub open spec fn enter(self) -> EnvView {
        EnvView { scopes: self.scopes.push(Map::empty()), ..self }
    }

    /// Without the innermost scope.
    pub open spec fn leave(self) -> EnvView {
        EnvView { scopes: self.scopes.drop_last(), ..self }
    }

    /// With the next number given to a variable.
    pub open spec fn declare(self, t: IrType) -> EnvView {
        EnvView { types: self.types.push(Some(t)), ..self }
    }

    /// With the next number given to a data object.
    pub open spec fn reserve(self) -> EnvView {
        EnvView { types: self.types.push(None), ..self }
    }

    /// With a name for a variable in the innermost scope.
    pub open spec fn bind(self, name: Seq<char>, var: int) -> EnvView {
        EnvView {
            scopes: self.scopes.update(
                self.scopes.len() - 1,
                self.scopes.last().insert(name, var),
            ),
            ..self
        }
    }
}

/// The variables of a function.
pub struct Env<'a> {
    scopes: Vec<Vec<(&'a str, usize)>>,
    types: Vec<Option<IrType>>,
    lone: Ghost<bool>,
}

/// The names that some bindings lead to: a later binding of a name replaces an earlier one.
spec fn scope_of(bindings: Seq<(&str, usize)>) -> Scope
    decreases bindings.len(),
{
    if bindings.len() == 0 {
        Map::empty()
    } else {
        scope_of(bindings.drop_last()).insert(bindings.last().0@, bindings.last().1 as int)
    }
}

impl<'a> View for Env<'a> {
    type V = EnvView;

    closed spec fn view(&self) -> EnvView {
        EnvView {
            scopes: Seq::new(self.scopes@.len(), |i: int| scope_of(self.scopes@[i]@)),
            types: self.types@,
            lone: self.lone@,
        }
    }
}

impl<'a> Env<'a> {
    /// No variables, in one scope.
    pub fn new(Ghost(lone): Ghost<bool>) -> (r: Env<'a>)
        ensures
            r@ == (EnvView { scopes: seq![Map::empty()], types: seq![], lone }),
    {
        let mut scopes: Vec<Vec<(&'a str, usize)>> = Vec::new();
        scopes.push(Vec::new());
        let r = Env { scopes, types: Vec::new(), lone: Ghost(lone) };
        assert(r@.scopes =~= seq![Map::empty()]);
        assert(r@.types =~= seq![]);
        r
    }

    /// The number that is given out next.
    pub fn next(&self) -> (r: usize)
        ensures
            r == self@.next(),
    {
        self.types.len()
    }

    /// Opens a scope.
    pub fn enter(&mut self)
        ensures
            final(self)@ == old(self)@.enter(),
    {
        self.scopes.push(Vec::new());
        assert(self@.scopes =~= old(self)@.enter().scopes);
    }

    /// Closes the innermost scope.
    pub fn leave(&mut self)
        requires
            old(self)@.scopes.len() > 0,
        ensures
            final(self)@ == old(self)@.leave(),
    {
        let _ = self.scopes.pop();
        assert(self@.scopes =~= old(self)@.leave().scopes);
    }

    /// Gives the next number to a variable of a type.
    pub fn declare(&mut self, t: IrType) -> (r: usize)
        ensures
            r == old(self)@.next(),
            final(self)@ == old(self)@.declare(t),
    {
        let r = self.types.len();
        self.types.push(Some(t));
        r
    }

    /// Gives the next number to a data object.
    pub fn reserve(&mut self) -> (r: usize)
        ensures
            r == old(self)@.next(),
            final(self)@ == old(self)@.reserve(),
    {
        let r = self.types.len();
        self.types.push(None);
        r
    }

    /// What a number was given out for, if it was given out.
    pub fn type_of(&self, number: usize) -> (r: Option<IrType>)
        ensures
            r == if number < self@.types.len() {
                self@.types[number as int]
            } else {
                None
            },
    {
        if number < self.types.len() {
            self.types[number]
        } else {
            None
        }
    }

    /// How many numbers were given to variables.
    pub fn variables(&self) -> (r: usize)
        ensures
            r == variables(self@.types),
    {
        let mut count: usize = 0;
        let mut i: usize = 0;
        while i < self.types.len()
            invariant
                count <= i <= self.types.len(),
                count == variables(self@.types.take(i as int)),
            decreases self.types.len() - i,
        {
            assert(self@.types.take(i + 1).drop_last() =~= self@.types.take(i as int));
            if self.types[i].is_some() {
                count += 1;
            }
            i += 1;
        }
        assert(self@.types.take(i as int) =~= self@.types);
        count
    }

    /// Lets a name stand for a variable in the innermost scope.
    pub fn bind(&mut self, name: &'a str, var: usize)
        requires
            old(self)@.scopes.len() > 0,
        ensures
            final(self)@ == old(self)@.bind(name@, var as int),
    {
        let last = self.scopes.len() - 1;
        let ghost before = self.scopes@[last as int]@;
        self.scopes[last].push((name, var));
        proof {
            let after = self.scopes@[last as int]@;
            assert(after.drop_last() =~= before);
            assert(self@.scopes =~= old(self)@.bind(name@, var as int).scopes);
        }
    }

    /// The variable that a name stands for.
    pub fn resolve(&self, name: &str) -> (r: Option<usize>)
        ensures
            match r {
                Some(v) => resolve(self@.scopes, name@) == Some(v as int),
                None => resolve(self@.scopes, name@) is None,
            },
    {
        let mut i: usize = self.scopes.len();
        assert(self@.scopes.take(i as int) =~= self@.scopes);
        while i > 0
            invariant
                i <= self.scopes@.len(),
                resolve(self@.scopes, name@) == resolve(self@.scopes.take(i as int), name@),
            decreases i,
        {
            i -= 1;
            let scope = &self.scopes[i];
            proof {
                assert(self@.scopes.take(i + 1).drop_last() =~= self@.scopes.take(i as int));
                assert(self@.scopes.take(i + 1).last() == scope_of(scope@));
            }
            let mut j: usize = scope.len();
            assert(scope@.take(j as int) =~= scope@);
            while j > 0
                invariant
                    j <= scope@.len(),
                    i < self.scopes@.len(),
                    scope == self.scopes@[i as int],
                    self@.scopes.take(i + 1).last() == scope_of(scope@),
                    resolve(self@.scopes, name@) == resolve(self@.scopes.take(i + 1), name@),
                    scope_of(scope@).contains_key(name@) == scope_of(scope@.take(j as int)).contains_key(name@),
                    scope_of(scope@).contains_key(name@) ==> scope_of(scope@)[name@]
                        == scope_of(scope@.take(j as int))[name@],
                decreases j,
            {
                j -= 1;
                assert(scope@.take(j + 1).drop_last() =~= scope@.take(j as int));
                if same_text(scope[j].0, name) {
                    return Some(scope[j].1);
                }
            }
        }
        None
    }
}

} // verus!
