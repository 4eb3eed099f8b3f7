//! Facts and the states built from them.

use crate::encoding::{
    arg_lanes, decode_args, fact_key, lane, lane_weight, lemma_decode_key, lemma_roundtrip,
    lemma_until_zero, nonzero_ids, pack, slot, until_zero, valid_ids, MAX_ARITY, MAX_ID,
};
use crate::task::action::Action;
use crate::task::{Goal, Task};
use crate::transition::{
    apply_effects, is_last_writer, lemma_frame, lemma_last_writer_wins, writes,
};
use std::cmp::Ordering;
use std::collections::BTreeSet;
use vstd::prelude::*;
use vstd::std_specs::cmp::PartialOrdSpecImpl;

verus! {

/// A ground literal: a predicate applied to at most three argument
/// identifiers, packed into one 64-bit key.
///
/// Two facts are equal exactly when their keys are equal, and facts are
/// ordered by their keys. A lane that holds no argument is zero, so an
/// argument identifier of zero reads as the end of the argument list:
/// `p(0)` and `p()` are one fact.
#[derive(Debug, Clone, Copy, Hash, PartialEq, Eq, Structural, Ord)]
pub struct Fact {
    internal: u64,
}

impl View for Fact {
    type V = u64;

    /// The packed key of the fact.
    closed spec fn view(&self) -> u64 {
        self.internal
    }
}

impl PartialOrd for Fact {
    /// Facts compare as their keys do.
    fn partial_cmp(&self, other: &Fact) -> (order: Option<Ordering>) {
        if self.internal < other.internal {
            Some(Ordering::Less)
        } else if self.internal > other.internal {
            Some(Ordering::Greater)
        } else {
            Some(Ordering::Equal)
        }
    }
}

impl PartialOrdSpecImpl for Fact {
    open spec fn obeys_partial_cmp_spec() -> bool {
        true
    }

    open spec fn partial_cmp_spec(&self, other: &Fact) -> Option<Ordering> {
        if self@ < other@ {
            Some(Ordering::Less)
        } else if self@ > other@ {
            Some(Ordering::Greater)
        } else {
            Some(Ordering::Equal)
        }
    }
}

impl Fact {
    /// The key is all there is to a fact: facts with equal keys are equal.
    pub proof fn lemma_key_is_identity(self, other: Fact)
        ensures
            (self@ == other@) == (self == other),
    {
    }

    /// The packed key.
    pub(crate) fn key(&self) -> (key: u64)
        ensures
            key == self@,
    {
        self.internal
    }

    /// Packs `predicate` and `args` into a fact. Decoding the fact gives
    /// back the predicate, and the arguments up to the first zero.
    ///
    /// There may be at most three arguments, and no identifier may exceed
    /// [`MAX_ID`]; [`Fact::try_new`] tests both.
    pub fn new(predicate: usize, args: Vec<usize>) -> (fact: Fact)
        requires
            valid_ids(predicate, args@),
        ensures
            fact@ == fact_key(predicate, args@),
            lane(fact@, 0) == predicate,
            decode_args(fact@) == until_zero(args@),
            nonzero_ids(args@) ==> decode_args(fact@) == args@,
    {
        let mut internal: u64 = predicate as u64;
        let mut shift: u32 = 16;
        let mut i: usize = 0;
        while i < args.len()
            invariant
                valid_ids(predicate, args@),
                i <= args.len(),
                shift == 16 * (i + 1),
                internal == pack(predicate, args@.take(i as int)),
            decreases args.len() - i,
        {
            let id: u64 = args[i] as u64;
            let term: u64 = id << shift;
            proof {
                assert(id << 16u32 == id * 0x1_0000) by (bit_vector)
                    requires
                        id <= 0xFFFF,
                ;
                assert(id << 32u32 == id * 0x1_0000_0000) by (bit_vector)
                    requires
                        id <= 0xFFFF,
                ;
                assert(id << 48u32 == id * 0x1_0000_0000_0000) by (bit_vector)
                    requires
                        id <= 0xFFFF,
                ;
                assert(term == id * lane_weight(i + 1));
            }
            internal = internal + term;
            shift = shift + 16;
            i = i + 1;
        }
        proof {
            lemma_decode_key(predicate, args@);
            if nonzero_ids(args@) {
                lemma_roundtrip(predicate, args@);
            }
        }
        Fact { internal }
    }

    /// Packs `predicate` and `args` into a fact as [`Fact::new`] does, or
    /// reports which limit of the key they exceed: the number of arguments
    /// first, then the size of the identifiers.
    pub fn try_new(predicate: usize, args: Vec<usize>) -> (result: Result<Fact, FactError>)
        ensures
            result is Ok <==> valid_ids(predicate, args@),
            result == Err::<Fact, FactError>(FactError::ArityExceeded) <==> args.len() > MAX_ARITY,
            result == Err::<Fact, FactError>(FactError::IdOutOfRange) <==> args.len() <= MAX_ARITY
                && !valid_ids(predicate, args@),
            result matches Ok(fact) ==> fact@ == fact_key(predicate, args@)
                && lane(fact@, 0) == predicate
                && decode_args(fact@) == until_zero(args@),
    {
        if args.len() > MAX_ARITY {
            return Err(FactError::ArityExceeded);
        }
        if predicate > MAX_ID {
            return Err(FactError::IdOutOfRange);
        }
        let mut i: usize = 0;
        while i < args.len()
            invariant
                i <= args.len() <= MAX_ARITY,
                predicate <= MAX_ID,
                forall|j: int| 0 <= j < i ==> args[j] <= MAX_ID,
            decreases args.len() - i,
        {
            if args[i] > MAX_ID {
                return Err(FactError::IdOutOfRange);
            }
            i = i + 1;
        }
        Ok(Fact::new(predicate, args))
    }

    /// The predicate identifier: lane 0 of the key.
    pub fn predicate(&self) -> (predicate: usize)
        ensures
            predicate == lane(self@, 0),
    {
        let key: u64 = self.internal;
        let low: u64 = key & 0xFFFF;
        proof {
            assert(key & 0xFFFF == key % 0x1_0000) by (bit_vector);
        }
        low as usize
    }

    /// The argument identifiers: lanes 1 to 3 of the key in order, up to the
    /// first lane that is zero.
    pub fn args(&self) -> (parameters: Vec<usize>)
        ensures
            parameters@ == decode_args(self@),
    {
        let key: u64 = self.internal;
        let mut parameters: Vec<usize> = Vec::new();
        let mut index: u64 = key >> 16;
        proof {
            assert(key >> 16 == key / 0x1_0000) by (bit_vector);
        }
        while index & 0xFFFF != 0
            invariant
                parameters.len() <= 3,
                parameters.len() < 3 ==> index == key / (lane_weight(parameters.len() + 1) as u64),
                parameters.len() == 3 ==> index == 0,
                forall|j: int|
                    1 <= j <= parameters.len() ==> #[trigger] lane(key, j) != 0
                        && parameters[j - 1] == lane(key, j),
            decreases 3 - parameters.len(),
        {
            let id: u64 = index & 0xFFFF;
            proof {
                assert(index & 0xFFFF == index % 0x1_0000) by (bit_vector);
                assert(0u64 & 0xFFFF == 0) by (bit_vector);
                assert((key / 0x1_0000) >> 16 == key / 0x1_0000_0000) by (bit_vector);
                assert((key / 0x1_0000_0000) >> 16 == key / 0x1_0000_0000_0000) by (bit_vector);
                assert((key / 0x1_0000_0000_0000) >> 16 == 0) by (bit_vector);
            }
            parameters.push(id as usize);
            index = index >> 16;
        }
        proof {
            assert(index & 0xFFFF == index % 0x1_0000) by (bit_vector);
            let n = parameters.len() as int;
            assert forall|i: int| 0 <= i < n implies arg_lanes(key)[i] != 0
                && parameters[i] == arg_lanes(key)[i] by {
                assert(lane(key, i + 1) != 0);
            }
            lemma_until_zero(arg_lanes(key), n);
            assert(parameters@ =~= arg_lanes(key).take(n));
        }
        parameters
    }
}

/// Why a predicate and an argument list cannot be packed into a fact.
#[derive(Debug, Clone, Copy, PartialEq, Eq, Structural)]
pub enum FactError {
    /// More than three arguments were given.
    ArityExceeded,
    /// The predicate or an argument is larger than a lane can hold.
    IdOutOfRange,
}

/// The keys of the facts in `facts`.
pub open spec fn fact_keys(facts: Seq<Fact>) -> Set<u64> {
    facts.map_values(|fact: Fact| fact@).to_set()
}

/// Collects the keys of `facts` into an ordered set.
pub(crate) fn key_set(facts: &Vec<Fact>) -> (keys: BTreeSet<u64>)
    ensures
        keys@ == fact_keys(facts@),
        keys@.finite(),
{
    let mut keys: BTreeSet<u64> = BTreeSet::new();
    let mut i: usize = 0;
    while i < facts.len()
        invariant
            i <= facts.len(),
            keys@ == fact_keys(facts@.take(i as int)),
            keys@.finite(),
        decreases facts.len() - i,
    {
        keys.insert(facts[i].internal);
        proof {
            let before = facts@.take(i as int).map_values(|fact: Fact| fact@);
            let after = facts@.take(i + 1).map_values(|fact: Fact| fact@);
            assert(after =~= before.push(facts[i as int]@));
            before.lemma_push_to_set_commute(facts[i as int]@);
        }
        i = i + 1;
    }
    proof {
        assert(facts@.take(i as int) =~= facts@);
    }
    keys
}

/// The facts that hold at one point of a search, besides the static facts
/// of the task: a set without duplicates, ordered by key.
///
/// A state is a value: no operation changes one, [`State::apply`] makes a
/// new one.
#[derive(Debug, PartialEq, Eq, PartialOrd, Ord, Hash)]
pub struct State {
    facts: BTreeSet<u64>,
}

impl Clone for State {
    /// A state with the same facts.
    fn clone(&self) -> (copy: State)
        ensures
            copy@ == self@,
    {
        proof {
            use_type_invariant(self);
        }
        State { facts: self.facts.clone() }
    }
}

impl View for State {
    type V = Set<u64>;

    /// The keys of the facts in the state.
    closed spec fn view(&self) -> Set<u64> {
        self.facts@
    }
}

impl State {
    #[verifier::type_invariant]
    spec fn well_formed(&self) -> bool {
        self.facts@.finite()
    }

    /// Whether the fact with key `key` is true in this state: it is a static
    /// fact of `task`, or it is in the state. A fact may be both.
    pub open spec fn holds(&self, task: &Task, key: u64) -> bool {
        task@.contains(key) || self@.contains(key)
    }

    /// Whether the state meets every requirement of `goal`.
    pub open spec fn meets(&self, task: &Task, goal: Seq<(Fact, bool)>) -> bool {
        forall|i: int|
            0 <= i < goal.len() ==> self.holds(task, (#[trigger] goal[i]).0@) == goal[i].1
    }

    /// The state that holds exactly the facts in `facts`.
    pub fn new(facts: Vec<Fact>) -> (state: State)
        ensures
            state@ == fact_keys(facts@),
            state@.finite(),
    {
        State { facts: key_set(&facts) }
    }

    /// The number of facts in the state.
    pub fn fact_count(&self) -> (count: usize)
        ensures
            count == self@.len(),
            self@.finite(),
    {
        proof {
            use_type_invariant(self);
        }
        self.facts.len()
    }

    /// Whether the fact `predicate()` is true in this state.
    pub fn has_nullary(&self, task: &Task, predicate: usize) -> (found: bool)
        requires
            predicate <= MAX_ID,
        ensures
            found == self.holds(task, fact_key(predicate, Seq::empty())),
    {
        self.has_fact(task, &Fact::new(predicate, Vec::new()))
    }

    /// Whether the fact `predicate(arg)` is true in this state.
    pub fn has_unary(&self, task: &Task, predicate: usize, arg: &usize) -> (found: bool)
        requires
            predicate <= MAX_ID,
            *arg <= MAX_ID,
        ensures
            found == self.holds(task, fact_key(predicate, seq![*arg])),
    {
        let mut args: Vec<usize> = Vec::new();
        args.push(*arg);
        self.has_fact(task, &Fact::new(predicate, args))
    }

    /// Whether the fact `predicate(args)` is true in this state.
    pub fn has_nary(&self, task: &Task, predicate: usize, args: &Vec<usize>) -> (found: bool)
        requires
            valid_ids(predicate, args@),
        ensures
            found == self.holds(task, fact_key(predicate, args@)),
    {
        let owned: Vec<usize> = args.clone();
        self.has_fact(task, &Fact::new(predicate, owned))
    }

    /// Whether `fact` is true in this state: it is a static fact of `task`,
    /// or it is in the state. Either source alone is enough, and a fact
    /// that both hold is true like any other.
    pub fn has_fact(&self, task: &Task, fact: &Fact) -> (found: bool)
        ensures
            found == self.holds(task, fact@),
            task@.contains(fact@) ==> found,
            self@.contains(fact@) ==> found,
    {
        task.is_static(fact) || self.facts.contains(&fact.internal)
    }

    /// The state after `action` under the grounding `args`: a copy of this
    /// state to which the effect atoms were applied in list order, each one
    /// adding or removing the fact it names. This state is left as it is.
    ///
    /// Facts that no effect atom names stay as they were, and where several
    /// atoms name one fact, the last of them decides.
    ///
    /// Every effect atom must name a fact under `args`;
    /// [`Action::can_ground`] tests this.
    pub fn apply(&self, action: &Action, args: &Vec<usize>) -> (next: State)
        requires
            action.effect_grounds(args@),
        ensures
            next@ == apply_effects(self@, action.effect@, args@),
            next@.finite(),
            forall|key: u64|
                !writes(action.effect@, args@, key) ==> #[trigger] next@.contains(key)
                    == self@.contains(key),
            forall|i: int| #[trigger]
                is_last_writer(action.effect@, args@, i) ==> next@.contains(
                    action.effect[i].grounded_key(args@),
                ) == action.effect[i].value,
    {
        proof {
            use_type_invariant(self);
        }
        let mut facts: BTreeSet<u64> = self.facts.clone();
        let mut i: usize = 0;
        while i < action.effect.len()
            invariant
                i <= action.effect.len(),
                action.effect_grounds(args@),
                facts@.finite(),
                facts@ == apply_effects(self.facts@, action.effect@.take(i as int), args@),
            decreases action.effect.len() - i,
        {
            let atom = &action.effect[i];
            let fact = Fact::new(atom.predicate, atom.map_args(args));
            if atom.value {
                facts.insert(fact.internal);
            } else {
                facts.remove(&fact.internal);
            }
            proof {
                assert(action.effect@.take(i + 1).drop_last() =~= action.effect@.take(i as int));
            }
            i = i + 1;
        }
        proof {
            assert(action.effect@.take(i as int) =~= action.effect@);
            assert forall|key: u64| !writes(action.effect@, args@, key) implies #[trigger]
                facts@.contains(key) == self@.contains(key) by {
                lemma_frame(self@, action.effect@, args@, key);
            }
            assert forall|i: int| #[trigger]
                is_last_writer(action.effect@, args@, i) implies facts@.contains(
                action.effect[i].grounded_key(args@),
            ) == action.effect[i].value by {
                lemma_last_writer_wins(self@, action.effect@, args@, i);
            }
        }
        State { facts }
    }

    /// Whether every requirement of `goal` is met: each of its facts is true
    /// in this state exactly when the goal requires it. A goal without
    /// requirements is covered by every state.
    pub fn covers(&self, task: &Task, goal: &Goal) -> (covered: bool)
        ensures
            covered == self.meets(task, goal@),
    {
        let mut i: usize = 0;
        while i < goal.len()
            invariant
                i <= goal.len(),
                forall|j: int|
                    0 <= j < i ==> self.holds(task, (#[trigger] goal[j]).0@) == goal[j].1,
            decreases goal.len() - i,
        {
            if self.has_fact(task, &goal[i].0) != goal[i].1 {
                return false;
            }
            i = i + 1;
        }
        true
    }
}

} // verus!
