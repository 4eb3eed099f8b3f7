//! What the effect of an action does to a set of facts.
//!
//! A set of facts is modelled by the set of their keys. The effect atoms of
//! an action are applied one after another, in list order; each one adds or
//! removes the fact it names under the grounding.

use crate::task::action::Atom;
use vstd::prelude::*;

verus! {

/// The facts after one effect atom: the fact that `atom` names under `args`
/// is added if the atom asserts it, removed if the atom retracts it.
pub open spec fn apply_atom(facts: Set<u64>, atom: Atom, args: Seq<usize>) -> Set<u64> {
    if atom.value {
        facts.insert(atom.grounded_key(args))
    } else {
        facts.remove(atom.grounded_key(args))
    }
}

/// The facts after all atoms of `effect`, applied from first to last.
pub open spec fn apply_effects(facts: Set<u64>, effect: Seq<Atom>, args: Seq<usize>) -> Set<u64>
    decreases effect.len(),
{
    if effect.len() == 0 {
        facts
    } else {
        apply_atom(apply_effects(facts, effect.drop_last(), args), effect.last(), args)
    }
}

/// Whether some atom of `effect` names the fact with key `key` under `args`.
pub open spec fn writes(effect: Seq<Atom>, args: Seq<usize>, key: u64) -> bool {
    exists|i: int| 0 <= i < effect.len() && (#[trigger] effect[i]).grounded_key(args) == key
}

/// Whether atom `i` of `effect` is the last one that names its fact under
/// `args`.
pub open spec fn is_last_writer(effect: Seq<Atom>, args: Seq<usize>, i: int) -> bool {
    &&& 0 <= i < effect.len()
    &&& forall|j: int|
        i < j < effect.len() ==> (#[trigger] effect[j]).grounded_key(args)
            != effect[i].grounded_key(args)
}

/// Frame: a fact that no atom of the effect names is in the result exactly
/// when it was there before.
pub proof fn lemma_frame(facts: Set<u64>, effect: Seq<Atom>, args: Seq<usize>, key: u64)
    requires
        !writes(effect, args, key),
    ensures
        apply_effects(facts, effect, args).contains(key) == facts.contains(key),
    decreases effect.len(),
{
    if effect.len() > 0 {
        let rest = effect.drop_last();
        assert(!writes(rest, args, key)) by {
            if writes(rest, args, key) {
                let i = choose|i: int|
                    0 <= i < rest.len() && (#[trigger] rest[i]).grounded_key(args) == key;
                assert(effect[i].grounded_key(args) == key);
            }
        }
        lemma_frame(facts, rest, args, key);
    }
}

/// The last writer wins: where atom `i` is the last one that names its fact,
/// the fact is in the result exactly when atom `i` asserts it, whatever the
/// earlier atoms did and whatever held before.
pub proof fn lemma_last_writer_wins(
    facts: Set<u64>,
    effect: Seq<Atom>,
    args: Seq<usize>,
    i: int,
)
    requires
        is_last_writer(effect, args, i),
    ensures
        apply_effects(facts, effect, args).contains(effect[i].grounded_key(args))
            == effect[i].value,
    decreases effect.len(),
{
    if i < effect.len() - 1 {
        let rest = effect.drop_last();
        assert(is_last_writer(rest, args, i)) by {
            assert(rest[i] == effect[i]);
            assert forall|j: int| i < j < rest.len() implies (#[trigger] rest[j]).grounded_key(
                args,
            ) != rest[i].grounded_key(args) by {
                assert(rest[j] == effect[j]);
            }
        }
        lemma_last_writer_wins(facts, rest, args, i);
    }
}

/// A fact that some atom of the effect names is decided by the effect alone:
/// it is in the result or not, whatever held before.
pub proof fn lemma_written_is_decided(
    before: Set<u64>,
    other: Set<u64>,
    effect: Seq<Atom>,
    args: Seq<usize>,
    key: u64,
)
    requires
        writes(effect, args, key),
    ensures
        apply_effects(before, effect, args).contains(key)
            == apply_effects(other, effect, args).contains(key),
    decreases effect.len(),
{
    let rest = effect.drop_last();
    if effect.last().grounded_key(args) != key {
        let i = choose|i: int|
            0 <= i < effect.len() && (#[trigger] effect[i]).grounded_key(args) == key;
        assert(rest[i].grounded_key(args) == key);
        lemma_written_is_decided(before, other, rest, args, key);
    }
}

/// Applying the same effect a second time changes nothing.
pub proof fn lemma_apply_idempotent(facts: Set<u64>, effect: Seq<Atom>, args: Seq<usize>)
    ensures
        apply_effects(apply_effects(facts, effect, args), effect, args)
            == apply_effects(facts, effect, args),
{
    let once = apply_effects(facts, effect, args);
    let twice = apply_effects(once, effect, args);
    assert forall|key: u64| twice.contains(key) == once.contains(key) by {
        if writes(effect, args, key) {
            lemma_written_is_decided(once, facts, effect, args, key);
        } else {
            lemma_frame(once, effect, args, key);
        }
    }
    assert(twice =~= once);
}

/// Applying one atom twice in a row, within one effect or as two effects
/// in sequence, gives what applying it once gives.
pub proof fn lemma_repeated_atom(facts: Set<u64>, atom: Atom, args: Seq<usize>)
    ensures
        apply_effects(facts, seq![atom], args) == apply_atom(facts, atom, args),
        apply_effects(facts, seq![atom, atom], args) == apply_effects(facts, seq![atom], args),
        apply_effects(apply_effects(facts, seq![atom], args), seq![atom], args)
            == apply_effects(facts, seq![atom], args),
{
    let single = seq![atom];
    let double = seq![atom, atom];
    let once = apply_atom(facts, atom, args);
    assert(single.drop_last() =~= Seq::<Atom>::empty());
    assert(double.drop_last() =~= single);
    assert(apply_effects(facts, single.drop_last(), args) == facts);
    assert(apply_effects(once, single.drop_last(), args) == once);
    assert(apply_atom(once, atom, args) =~= once);
}

} // verus!
