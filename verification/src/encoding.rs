//! The layout of a fact key: four 16-bit lanes in one 64-bit integer.
//!
//! Lane 0 holds the predicate identifier, lanes 1 to 3 hold the argument
//! identifiers in order. A lane that holds no argument is zero.

use vstd::arithmetic::div_mod::lemma_fundamental_div_mod_converse;
use vstd::prelude::*;

verus! {

/// Largest identifier that fits in one lane.
pub const MAX_ID: usize = 0xFFFF;

/// Largest number of arguments a fact can carry.
pub const MAX_ARITY: usize = 3;

/// Place value of lane `i` inside a key.
pub open spec fn lane_weight(i: int) -> int {
    if i <= 0 {
        1
    } else if i == 1 {
        0x1_0000
    } else if i == 2 {
        0x1_0000_0000
    } else {
        0x1_0000_0000_0000
    }
}

/// The identifier stored in lane `i` of `key`.
pub open spec fn lane(key: u64, i: int) -> int {
    (key as int / lane_weight(i)) % 0x1_0000
}

/// The `i`-th argument of `args`, or zero where the list has ended.
pub open spec fn slot(args: Seq<usize>, i: int) -> int {
    if 0 <= i < args.len() {
        args[i] as int
    } else {
        0
    }
}

/// Identifiers that a key can represent: at most three arguments, and every
/// identifier within one lane.
pub open spec fn valid_ids(predicate: usize, args: Seq<usize>) -> bool {
    &&& predicate <= MAX_ID
    &&& args.len() <= MAX_ARITY
    &&& forall|i: int| 0 <= i < args.len() ==> args[i] <= MAX_ID
}

/// The number that lays `predicate` and `args` out in lanes: each identifier
/// times the place value of its lane.
pub open spec fn pack(predicate: usize, args: Seq<usize>) -> int {
    predicate + slot(args, 0) * lane_weight(1) + slot(args, 1) * lane_weight(2) + slot(args, 2)
        * lane_weight(3)
}

/// The key of the literal `predicate(args)`.
pub open spec fn fact_key(predicate: usize, args: Seq<usize>) -> u64
    recommends
        valid_ids(predicate, args),
{
    pack(predicate, args) as u64
}

/// Whether no identifier in `args` is zero.
pub open spec fn nonzero_ids(args: Seq<usize>) -> bool {
    forall|i: int| 0 <= i < args.len() ==> args[i] != 0
}

/// The argument lanes of `key`, lowest first.
pub open spec fn arg_lanes(key: u64) -> Seq<usize> {
    seq![lane(key, 1) as usize, lane(key, 2) as usize, lane(key, 3) as usize]
}

/// The identifiers of `ids` that come before the first zero.
pub open spec fn until_zero(ids: Seq<usize>) -> Seq<usize>
    decreases ids.len(),
{
    if ids.len() == 0 || ids[0] == 0 {
        Seq::empty()
    } else {
        seq![ids[0]] + until_zero(ids.drop_first())
    }
}

/// The argument list that decoding reads from `key`: its argument lanes in
/// order, up to the first lane that is zero.
pub open spec fn decode_args(key: u64) -> Seq<usize> {
    until_zero(arg_lanes(key))
}

/// Where the first `n` identifiers are not zero and the list ends there or
/// goes on with a zero, `until_zero` keeps exactly those `n`.
pub proof fn lemma_until_zero(ids: Seq<usize>, n: int)
    requires
        0 <= n <= ids.len(),
        forall|i: int| 0 <= i < n ==> ids[i] != 0,
        n < ids.len() ==> ids[n] == 0,
    ensures
        until_zero(ids) == ids.take(n),
    decreases n,
{
    if n > 0 {
        let rest = ids.drop_first();
        assert forall|i: int| 0 <= i < n - 1 implies rest[i] != 0 by {
            assert(rest[i] == ids[i + 1]);
        }
        lemma_until_zero(rest, n - 1);
        assert(ids.take(n) =~= seq![ids[0]] + rest.take(n - 1));
    }
}

/// Every lane of a key holds what was put there: lane 0 the predicate, lane
/// `i` the argument before it, and zero where the list has ended. Nothing
/// is lost: the key is the packed number itself.
pub proof fn lemma_key_lanes(predicate: usize, args: Seq<usize>)
    requires
        valid_ids(predicate, args),
    ensures
        fact_key(predicate, args) == pack(predicate, args),
        lane(fact_key(predicate, args), 0) == predicate,
        forall|i: int|
            1 <= i <= 3 ==> #[trigger] lane(fact_key(predicate, args), i) == slot(args, i - 1),
{
    let p = predicate as int;
    let a = slot(args, 0);
    let b = slot(args, 1);
    let c = slot(args, 2);
    let k = pack(predicate, args);
    // What lies above lane 0, and above lane 1.
    let upper1 = a + b * 0x1_0000 + c * 0x1_0000_0000;
    let upper2 = b + c * 0x1_0000;
    lemma_fundamental_div_mod_converse(k, 0x1_0000, upper1, p);
    lemma_fundamental_div_mod_converse(upper1, 0x1_0000, upper2, a);
    lemma_fundamental_div_mod_converse(k, 0x1_0000_0000, upper2, p + a * 0x1_0000);
    lemma_fundamental_div_mod_converse(upper2, 0x1_0000, c, b);
    lemma_fundamental_div_mod_converse(
        k,
        0x1_0000_0000_0000,
        c,
        p + a * 0x1_0000 + b * 0x1_0000_0000,
    );
    lemma_fundamental_div_mod_converse(c, 0x1_0000, 0, c);
}

/// Whether two argument lists fill the lanes alike: they agree at every
/// position, an argument that is missing counting as zero.
pub open spec fn same_slots(args: Seq<usize>, other_args: Seq<usize>) -> bool {
    forall|i: int| 0 <= i < 3 ==> slot(args, i) == slot(other_args, i)
}

/// Two literals have the same key exactly when they have the same predicate
/// and fill the lanes alike.
pub proof fn lemma_same_key(
    predicate: usize,
    args: Seq<usize>,
    other_predicate: usize,
    other_args: Seq<usize>,
)
    requires
        valid_ids(predicate, args),
        valid_ids(other_predicate, other_args),
    ensures
        fact_key(predicate, args) == fact_key(other_predicate, other_args) <==> (predicate
            == other_predicate && same_slots(args, other_args)),
{
    lemma_key_lanes(predicate, args);
    lemma_key_lanes(other_predicate, other_args);
    if fact_key(predicate, args) == fact_key(other_predicate, other_args) {
        assert forall|i: int| 0 <= i < 3 implies slot(args, i) == slot(other_args, i) by {
            assert(lane(fact_key(predicate, args), i + 1) == slot(args, i));
            assert(lane(fact_key(other_predicate, other_args), i + 1) == slot(other_args, i));
        }
    }
    if predicate == other_predicate && same_slots(args, other_args) {
        assert(slot(args, 0) == slot(other_args, 0));
        assert(slot(args, 1) == slot(other_args, 1));
        assert(slot(args, 2) == slot(other_args, 2));
    }
}

/// Literals of identifiers that are not zero have the same key only when
/// they are the same literal.
pub proof fn lemma_key_identifies_literal(
    predicate: usize,
    args: Seq<usize>,
    other_predicate: usize,
    other_args: Seq<usize>,
)
    requires
        valid_ids(predicate, args),
        valid_ids(other_predicate, other_args),
        nonzero_ids(args),
        nonzero_ids(other_args),
        fact_key(predicate, args) == fact_key(other_predicate, other_args),
    ensures
        predicate == other_predicate,
        args == other_args,
{
    lemma_roundtrip(predicate, args);
    lemma_roundtrip(other_predicate, other_args);
}

/// Decoding a key gives back the predicate, and the arguments up to the
/// first one that is zero.
pub proof fn lemma_decode_key(predicate: usize, args: Seq<usize>)
    requires
        valid_ids(predicate, args),
    ensures
        lane(fact_key(predicate, args), 0) == predicate,
        decode_args(fact_key(predicate, args)) == until_zero(args),
{
    lemma_key_lanes(predicate, args);
    let lanes = arg_lanes(fact_key(predicate, args));
    assert forall|i: int| 0 <= i < 3 implies lanes[i] == slot(args, i) by {
        assert(lane(fact_key(predicate, args), i + 1) == slot(args, i));
    }
    // The arguments before the first zero, in the list and in the lanes alike.
    let n: int = if slot(args, 0) == 0 {
        0
    } else if slot(args, 1) == 0 {
        1
    } else if slot(args, 2) == 0 {
        2
    } else {
        3
    };
    lemma_until_zero(lanes, n);
    lemma_until_zero(args, n);
    assert(lanes.take(n) =~= args.take(n));
}

/// Packing and decoding are inverse on identifiers that are not zero: the
/// key of `predicate(args)` decodes to `predicate` and `args`.
pub proof fn lemma_roundtrip(predicate: usize, args: Seq<usize>)
    requires
        valid_ids(predicate, args),
        nonzero_ids(args),
    ensures
        lane(fact_key(predicate, args), 0) == predicate,
        decode_args(fact_key(predicate, args)) == args,
{
    lemma_decode_key(predicate, args);
    lemma_until_zero(args, args.len() as int);
    assert(args.take(args.len() as int) =~= args);
}

} // verus!
