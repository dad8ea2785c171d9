use unordered_n_tuple::UnorderedNTuple;
use unordered_n_tuple::UnorderedPair;

const SAMPLES: [usize; 6] = [0, 1, 2, 7, 255, usize::MAX];

#[test]
fn documented_triple_is_equal_in_any_order() {
    assert_eq!(UnorderedNTuple([0, 3, 5]), UnorderedNTuple([5, 0, 3]));
}

#[test]
fn check_pair_equality() {
    for a in SAMPLES {
        for b in SAMPLES {
            assert!(UnorderedNTuple([a, b]) == UnorderedNTuple([b, a]));
            assert!(UnorderedNTuple([a, b]) == UnorderedNTuple([a, b]));
        }
    }
}

#[test]
fn check_singleton_equality() {
    for a in SAMPLES {
        for b in SAMPLES {
            assert_eq!(a == b, UnorderedNTuple([a]) == UnorderedNTuple([b]));
        }
    }
}

#[test]
fn check_pair_inequality() {
    for a in SAMPLES {
        for b in SAMPLES {
            for c in SAMPLES {
                if b != c {
                    assert!(UnorderedNTuple([a, b]) != UnorderedNTuple([a, c]));
                }
            }
        }
    }
}

#[test]
fn check_triple_equality() {
    for a in SAMPLES {
        for b in SAMPLES {
            for c in SAMPLES {
                let triples = [
                    UnorderedNTuple([a, b, c]),
                    UnorderedNTuple([b, a, c]),
                    UnorderedNTuple([b, c, a]),
                    UnorderedNTuple([a, c, b]),
                    UnorderedNTuple([c, a, b]),
                    UnorderedNTuple([c, b, a]),
                ];
                for triple_a in triples.iter() {
                    for triple_b in triples.iter() {
                        assert!(triple_a == triple_b);
                    }
                }
            }
        }
    }
}

#[test]
fn multiplicities_count() {
    assert_ne!(UnorderedNTuple([1, 1]), UnorderedNTuple([1, 2]));
    assert_ne!(UnorderedNTuple([1, 2]), UnorderedNTuple([1, 1]));
    assert_ne!(UnorderedNTuple([1, 1, 2]), UnorderedNTuple([1, 2, 2]));
    assert_ne!(UnorderedNTuple([2, 2, 1]), UnorderedNTuple([1, 1, 2]));
    assert_eq!(UnorderedNTuple([1, 2, 1]), UnorderedNTuple([2, 1, 1]));
    assert_eq!(UnorderedNTuple([4, 4, 4, 9]), UnorderedNTuple([4, 9, 4, 4]));
}

#[test]
fn a_later_duplicate_does_not_claim_a_slot_twice() {
    assert_ne!(UnorderedNTuple([5, 5, 6]), UnorderedNTuple([5, 6, 7]));
    assert_ne!(UnorderedNTuple([5, 6, 7]), UnorderedNTuple([5, 5, 6]));
}

#[test]
fn equality_is_an_equivalence_on_samples() {
    let a = UnorderedNTuple([3, 1, 2]);
    let b = UnorderedNTuple([1, 2, 3]);
    let c = UnorderedNTuple([2, 3, 1]);
    assert!(a == a);
    assert!(a == b && b == a);
    assert!(b == c && a == c);
}

#[test]
fn empty_tuples_are_equal() {
    let a: UnorderedNTuple<u8, 0> = UnorderedNTuple([]);
    let b: UnorderedNTuple<u8, 0> = UnorderedNTuple([]);
    assert!(a == b);
}

#[test]
fn elements_need_only_equality() {
    let a = UnorderedNTuple([String::from("x"), String::from("y")]);
    let b = UnorderedNTuple([String::from("y"), String::from("x")]);
    let c = UnorderedNTuple([String::from("y"), String::from("y")]);
    assert!(a == b);
    assert!(a != c);
}

#[test]
fn tuples_of_tuples_compare_by_their_own_equality() {
    let a = UnorderedNTuple([UnorderedNTuple([1, 2]), UnorderedNTuple([3, 4])]);
    let b = UnorderedNTuple([UnorderedNTuple([4, 3]), UnorderedNTuple([2, 1])]);
    assert!(a == b);
}

#[test]
fn array_conversions_keep_the_storage_order() {
    let tuple: UnorderedNTuple<u8, 3> = UnorderedNTuple::from([7, 8, 9]);
    assert_eq!(tuple.0, [7, 8, 9]);
    let array: [u8; 3] = tuple.into();
    assert_eq!(array, [7, 8, 9]);
}

#[test]
fn pair_conversions_round_trip() {
    let pair: UnorderedPair<u32> = UnorderedPair::from((10, 20));
    assert_eq!(pair.0, [10, 20]);
    let plain: (u32, u32) = pair.into();
    assert_eq!(plain, (10, 20));
    let swapped: UnorderedPair<u32> = (20, 10).into();
    assert_eq!(pair, swapped);
    let back: (u32, u32) = swapped.into();
    assert_eq!(back, (20, 10));
}

#[test]
fn pair_conversion_moves_values_that_cannot_be_copied() {
    let pair: UnorderedPair<String> = (String::from("left"), String::from("right")).into();
    let (first, second): (String, String) = pair.into();
    assert_eq!(first, "left");
    assert_eq!(second, "right");
}
