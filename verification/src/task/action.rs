//! Action templates and the atoms they are made of.

use super::parameter::Parameter;
use crate::encoding::{fact_key, valid_ids, MAX_ARITY, MAX_ID};
use vstd::prelude::*;

verus! {

/// An action template. A state reads only `effect`; the name is for
/// diagnostics, and parameters and precondition belong to the planner.
#[derive(Debug, Clone, Hash, PartialEq, Eq)]
pub struct Action {
    pub name: String,
    pub parameters: Vec<Parameter>,
    pub precondition: Vec<Atom>,
    pub effect: Vec<Atom>,
}

/// A predicate over argument slots. In a precondition `value` says whether
/// the literal must hold; in an effect, whether it becomes true or false.
#[derive(Debug, Clone, Hash, PartialEq, Eq)]
pub struct Atom {
    pub predicate: usize,
    pub kind: AtomKind,
    pub args: Vec<Argument>,
    pub value: bool,
}

/// What an atom tests: a fact, or the equality of its arguments.
#[derive(Debug, Clone, Copy, Hash, PartialEq, Eq, Structural)]
pub enum AtomKind {
    Fact,
    Equal,
}

/// One argument slot of an atom.
#[derive(Debug, Clone, Copy, Hash, PartialEq, Eq, Structural)]
pub enum Argument {
    /// The entry of the grounding at this position.
    Index(usize),
    /// This identifier, whatever the grounding.
    Const(usize),
}

impl Argument {
    /// Whether the grounding `args` gives this slot a value.
    pub open spec fn bound_by(self, args: Seq<usize>) -> bool {
        match self {
            Argument::Index(i) => i < args.len(),
            Argument::Const(_) => true,
        }
    }

    /// The identifier that this slot denotes under the grounding `args`.
    pub open spec fn resolve(self, args: Seq<usize>) -> usize
        recommends
            self.bound_by(args),
    {
        match self {
            Argument::Index(i) => args[i as int],
            Argument::Const(c) => c,
        }
    }
}

impl Atom {
    /// Whether the grounding `args` gives every slot of the atom a value.
    pub open spec fn bound_by(&self, args: Seq<usize>) -> bool {
        forall|j: int| 0 <= j < self.args.len() ==> (#[trigger] self.args[j]).bound_by(args)
    }

    /// The argument list of the atom under the grounding `args`.
    pub open spec fn grounded_args(&self, args: Seq<usize>) -> Seq<usize>
        recommends
            self.bound_by(args),
    {
        self.args@.map_values(|slot: Argument| slot.resolve(args))
    }

    /// Whether the atom under the grounding `args` names a fact: every slot
    /// has a value, and predicate and arguments fit a key.
    pub open spec fn grounds_to_fact(&self, args: Seq<usize>) -> bool {
        &&& self.bound_by(args)
        &&& valid_ids(self.predicate, self.grounded_args(args))
    }

    /// The key of the fact that the atom names under the grounding `args`.
    pub open spec fn grounded_key(&self, args: Seq<usize>) -> u64
        recommends
            self.grounds_to_fact(args),
    {
        fact_key(self.predicate, self.grounded_args(args))
    }

    /// Tests whether the atom names a fact under the grounding `args`.
    pub fn can_ground(&self, args: &Vec<usize>) -> (ok: bool)
        ensures
            ok == self.grounds_to_fact(args@),
    {
        if self.predicate > MAX_ID || self.args.len() > MAX_ARITY {
            return false;
        }
        let mut j: usize = 0;
        while j < self.args.len()
            invariant
                j <= self.args.len() <= MAX_ARITY,
                self.predicate <= MAX_ID,
                forall|k: int|
                    0 <= k < j ==> (#[trigger] self.args[k]).bound_by(args@)
                        && self.args[k].resolve(args@) <= MAX_ID,
            decreases self.args.len() - j,
        {
            let fits: bool = match &self.args[j] {
                Argument::Index(i) => *i < args.len() && args[*i] <= MAX_ID,
                Argument::Const(c) => *c <= MAX_ID,
            };
            if !fits {
                proof {
                    let slot = self.args[j as int];
                    if slot.bound_by(args@) {
                        assert(self.grounded_args(args@)[j as int] == slot.resolve(args@));
                    }
                }
                return false;
            }
            j = j + 1;
        }
        true
    }

    /// Substitutes the grounding `args` into the argument slots, in order:
    /// an index slot gives the entry of `args` at that index, a constant
    /// slot gives its identifier.
    ///
    /// Every index must lie inside `args`.
    pub fn map_args(&self, args: &Vec<usize>) -> (mapped: Vec<usize>)
        requires
            self.bound_by(args@),
        ensures
            mapped@ == self.grounded_args(args@),
    {
        let mut mapped: Vec<usize> = Vec::new();
        let mut j: usize = 0;
        while j < self.args.len()
            invariant
                j <= self.args.len(),
                self.bound_by(args@),
                mapped.len() == j,
                forall|k: int| 0 <= k < j ==> mapped[k] == self.args[k].resolve(args@),
            decreases self.args.len() - j,
        {
            let id: usize = match &self.args[j] {
                Argument::Index(i) => args[*i],
                Argument::Const(c) => *c,
            };
            mapped.push(id);
            j = j + 1;
        }
        mapped
    }
}

impl Action {
    /// Whether every effect atom names a fact under the grounding `args`.
    pub open spec fn effect_grounds(&self, args: Seq<usize>) -> bool {
        forall|i: int|
            0 <= i < self.effect.len() ==> (#[trigger] self.effect[i]).grounds_to_fact(args)
    }

    /// Tests whether every effect atom names a fact under the grounding
    /// `args`, so that a state can apply the action.
    pub fn can_ground(&self, args: &Vec<usize>) -> (ok: bool)
        ensures
            ok == self.effect_grounds(args@),
    {
        let mut i: usize = 0;
        while i < self.effect.len()
            invariant
                i <= self.effect.len(),
                forall|k: int|
                    0 <= k < i ==> (#[trigger] self.effect[k]).grounds_to_fact(args@),
            decreases self.effect.len() - i,
        {
            if !self.effect[i].can_ground(args) {
                return false;
            }
            i = i + 1;
        }
        true
    }
}

} // verus!
