//! The planning problem as a state sees it: static facts and goals.

pub mod action;
pub mod parameter;

use crate::state::{fact_keys, key_set, Fact};
use std::collections::BTreeSet;
use vstd::prelude::*;

verus! {

/// The requirements of a goal, in order: each fact with the truth value it
/// must have.
pub type Goal = Vec<(Fact, bool)>;

/// The part of a planning problem that never changes during search: the
/// facts that hold in every state.
#[derive(Debug)]
pub struct Task {
    static_facts: BTreeSet<u64>,
}

impl View for Task {
    type V = Set<u64>;

    /// The keys of the static facts.
    closed spec fn view(&self) -> Set<u64> {
        self.static_facts@
    }
}

impl Task {
    /// A task whose static facts are `static_facts`.
    pub fn new(static_facts: Vec<Fact>) -> (task: Task)
        ensures
            task@ == fact_keys(static_facts@),
    {
        Task { static_facts: key_set(&static_facts) }
    }

    /// Whether `fact` is one of the static facts.
    pub fn is_static(&self, fact: &Fact) -> (found: bool)
        ensures
            found == self@.contains(fact@),
    {
        let key: u64 = fact.key();
        self.static_facts.contains(&key)
    }
}

} // verus!
