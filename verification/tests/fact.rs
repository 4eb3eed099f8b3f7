use plan_state::state::{Fact, FactError};
use std::cmp::Ordering;

#[test]
fn new_keeps_predicate_and_argument() {
    let fact = Fact::new(5, vec![2]);
    assert_eq!(fact.predicate(), 5);
    assert_eq!(fact.args(), vec![2]);
}

#[test]
fn new_packs_each_identifier_into_its_lane() {
    assert_eq!(format!("{:?}", Fact::new(5, vec![])), "Fact { internal: 5 }");
    assert_eq!(format!("{:?}", Fact::new(5, vec![2])), "Fact { internal: 131077 }");
    assert_eq!(
        format!("{:?}", Fact::new(1, vec![2, 3, 4])),
        "Fact { internal: 1125912791875585 }"
    );
    assert_eq!(
        format!("{:?}", Fact::new(65535, vec![65535, 65535, 65535])),
        "Fact { internal: 18446744073709551615 }"
    );
}

#[test]
fn roundtrip_without_arguments() {
    for predicate in [0usize, 1, 255, 65535] {
        let fact = Fact::new(predicate, vec![]);
        assert_eq!(fact.predicate(), predicate);
        assert_eq!(fact.args(), Vec::<usize>::new());
    }
}

#[test]
fn roundtrip_with_one_to_three_arguments() {
    let lists: Vec<Vec<usize>> = vec![
        vec![1],
        vec![65535],
        vec![1, 2],
        vec![65535, 1],
        vec![7, 8, 9],
        vec![65535, 65535, 65535],
        vec![1, 65535, 256],
    ];
    for predicate in [0usize, 5, 65535] {
        for args in lists.iter() {
            let fact = Fact::new(predicate, args.clone());
            assert_eq!(fact.predicate(), predicate);
            assert_eq!(&fact.args(), args);
        }
    }
}

#[test]
fn predicate_survives_zero_arguments() {
    assert_eq!(Fact::new(9, vec![0]).predicate(), 9);
    assert_eq!(Fact::new(9, vec![0, 0, 0]).predicate(), 9);
    assert_eq!(Fact::new(0, vec![0, 4]).predicate(), 0);
}

#[test]
fn args_stop_at_the_first_zero_lane() {
    assert_eq!(Fact::new(5, vec![0]).args(), Vec::<usize>::new());
    assert_eq!(Fact::new(5, vec![3, 0]).args(), vec![3]);
    assert_eq!(Fact::new(5, vec![3, 4, 0]).args(), vec![3, 4]);
    assert_eq!(Fact::new(5, vec![3, 0, 4]).args(), vec![3]);
    assert_eq!(Fact::new(5, vec![0, 7]).args(), Vec::<usize>::new());
}

#[test]
fn trailing_zero_argument_is_the_same_fact_as_none() {
    assert_eq!(Fact::new(5, vec![0]), Fact::new(5, vec![]));
    assert_eq!(Fact::new(5, vec![3, 0]), Fact::new(5, vec![3]));
    assert_ne!(Fact::new(5, vec![0, 3]), Fact::new(5, vec![3]));
}

#[test]
fn facts_are_equal_exactly_when_their_identifiers_are() {
    assert_eq!(Fact::new(5, vec![2, 3]), Fact::new(5, vec![2, 3]));
    assert_ne!(Fact::new(5, vec![2, 3]), Fact::new(5, vec![3, 2]));
    assert_ne!(Fact::new(5, vec![2]), Fact::new(6, vec![2]));
    assert_ne!(Fact::new(5, vec![2]), Fact::new(5, vec![2, 2]));
}

#[test]
fn facts_are_ordered_by_their_keys() {
    // The last argument weighs most, the predicate least.
    assert!(Fact::new(65535, vec![]) < Fact::new(0, vec![1]));
    assert!(Fact::new(0, vec![65535]) < Fact::new(0, vec![1, 1]));
    assert!(Fact::new(0, vec![65535, 65535]) < Fact::new(0, vec![1, 1, 1]));
    assert!(Fact::new(3, vec![4]) < Fact::new(4, vec![4]));
    let mut facts = vec![
        Fact::new(2, vec![1]),
        Fact::new(1, vec![2]),
        Fact::new(9, vec![]),
        Fact::new(1, vec![1]),
    ];
    facts.sort();
    assert_eq!(
        facts,
        vec![
            Fact::new(9, vec![]),
            Fact::new(1, vec![1]),
            Fact::new(2, vec![1]),
            Fact::new(1, vec![2]),
        ]
    );
}

#[test]
fn try_new_accepts_what_new_accepts() {
    assert_eq!(Fact::try_new(5, vec![2]), Ok(Fact::new(5, vec![2])));
    assert_eq!(Fact::try_new(0, vec![]), Ok(Fact::new(0, vec![])));
    assert_eq!(
        Fact::try_new(65535, vec![65535, 0, 65535]),
        Ok(Fact::new(65535, vec![65535, 0, 65535]))
    );
}

#[test]
fn try_new_rejects_a_fourth_argument() {
    assert_eq!(Fact::try_new(5, vec![1, 2, 3, 4]), Err(FactError::ArityExceeded));
    assert_eq!(Fact::try_new(5, vec![0; 10]), Err(FactError::ArityExceeded));
}

#[test]
fn try_new_rejects_identifiers_beyond_a_lane() {
    assert_eq!(Fact::try_new(65536, vec![]), Err(FactError::IdOutOfRange));
    assert_eq!(Fact::try_new(5, vec![65536]), Err(FactError::IdOutOfRange));
    assert_eq!(Fact::try_new(5, vec![1, 2, 70000]), Err(FactError::IdOutOfRange));
    assert_eq!(Fact::try_new(usize::MAX, vec![1]), Err(FactError::IdOutOfRange));
}

#[test]
fn try_new_reports_arity_before_identifiers() {
    assert_eq!(Fact::try_new(65536, vec![1, 2, 3, 4]), Err(FactError::ArityExceeded));
    assert_eq!(Fact::try_new(1, vec![65536, 2, 3, 4]), Err(FactError::ArityExceeded));
}

#[test]
fn partial_cmp_compares_keys() {
    let small = Fact::new(5, vec![2]);
    let large = Fact::new(4, vec![3]);
    assert_eq!(small.partial_cmp(&large), Some(Ordering::Less));
    assert_eq!(large.partial_cmp(&small), Some(Ordering::Greater));
    assert_eq!(small.partial_cmp(&Fact::new(5, vec![2])), Some(Ordering::Equal));
}

#[test]
fn partial_cmp_agrees_with_cmp() {
    let facts = [
        Fact::new(0, vec![]),
        Fact::new(65535, vec![]),
        Fact::new(0, vec![1]),
        Fact::new(7, vec![1, 2]),
        Fact::new(7, vec![2, 1]),
        Fact::new(1, vec![1, 1, 1]),
        Fact::new(65535, vec![65535, 65535, 65535]),
    ];
    for a in facts.iter() {
        for b in facts.iter() {
            assert_eq!(a.partial_cmp(b), Some(a.cmp(b)));
            assert_eq!(a < b, a.cmp(b) == Ordering::Less);
            assert_eq!(a == b, a.cmp(b) == Ordering::Equal);
        }
    }
}

#[test]
fn copies_of_a_fact_are_equal() {
    let fact = Fact::new(3, vec![4, 5]);
    let copy = fact;
    assert_eq!(copy, fact);
    assert_eq!(fact.clone().args(), vec![4, 5]);
}
