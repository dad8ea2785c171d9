use std::collections::hash_map::DefaultHasher;
use std::hash::Hash;
use std::hash::Hasher;
use unordered_n_tuple::UnorderedNTuple;

fn hash_of<const N: usize>(tuple: &UnorderedNTuple<u32, N>) -> u64 {
    let mut state = DefaultHasher::new();
    Hash::hash_slice(&tuple.sorted(), &mut state);
    state.finish()
}

#[test]
fn sorted_gives_an_ascending_copy() {
    let tuple = UnorderedNTuple([3, 1, 2]);
    assert_eq!(tuple.sorted(), [1, 2, 3]);
    assert_eq!(tuple.0, [3, 1, 2]);
    assert_eq!(UnorderedNTuple([2, 2, 1, 0]).sorted(), [0, 1, 2, 2]);
}

#[test]
fn equal_tuples_have_the_same_sorted_copy() {
    assert_eq!(UnorderedNTuple([5, 0, 3]).sorted(), UnorderedNTuple([0, 3, 5]).sorted());
    assert_ne!(UnorderedNTuple([1, 1, 2]).sorted(), UnorderedNTuple([1, 2, 2]).sorted());
}

#[test]
fn into_sorted_gives_ascending_order() {
    assert_eq!(UnorderedNTuple([3, 1, 2]).into_sorted(), [1, 2, 3]);
    assert_eq!(UnorderedNTuple([2, 2, 1, 0]).into_sorted(), [0, 1, 2, 2]);
    assert_eq!(UnorderedNTuple([9u8]).into_sorted(), [9]);
}

#[test]
fn equal_pairs_hash_alike() {
    for a in [0u32, 1, 5, 77, u32::MAX] {
        for b in [0u32, 2, 5, 99] {
            let left = UnorderedNTuple([a, b]);
            let right = UnorderedNTuple([b, a]);
            assert!(left == right);
            assert_eq!(hash_of(&left), hash_of(&right));
        }
    }
}

#[test]
fn equal_triples_hash_alike() {
    let triples = [
        UnorderedNTuple([1u32, 2, 3]),
        UnorderedNTuple([2, 1, 3]),
        UnorderedNTuple([2, 3, 1]),
        UnorderedNTuple([1, 3, 2]),
        UnorderedNTuple([3, 1, 2]),
        UnorderedNTuple([3, 2, 1]),
    ];
    let expected = hash_of(&triples[0]);
    for triple in triples.iter() {
        assert_eq!(hash_of(triple), expected);
    }
}

#[test]
fn hash_is_that_of_the_sorted_elements() {
    let mut direct = DefaultHasher::new();
    Hash::hash_slice(&[1u32, 2, 3], &mut direct);
    assert_eq!(hash_of(&UnorderedNTuple([3, 1, 2])), direct.finish());
}

#[test]
fn hash_leaves_the_tuple_as_it_was() {
    let tuple = UnorderedNTuple([3u32, 1, 2]);
    let _ = hash_of(&tuple);
    assert_eq!(tuple.0, [3, 1, 2]);
}

#[test]
fn hash_works_on_elements_that_are_cloned() {
    let left = UnorderedNTuple([String::from("pear"), String::from("apple")]);
    let right = UnorderedNTuple([String::from("apple"), String::from("pear")]);
    let mut first = DefaultHasher::new();
    Hash::hash_slice(&left.sorted(), &mut first);
    let mut second = DefaultHasher::new();
    Hash::hash_slice(&right.sorted(), &mut second);
    assert!(left == right);
    assert_eq!(first.finish(), second.finish());
    assert_eq!(left.0[0], "pear");
}

#[test]
fn into_sorted_orders_strings() {
    let sorted = UnorderedNTuple([String::from("b"), String::from("c"), String::from("a")])
        .into_sorted();
    assert_eq!(sorted, [String::from("a"), String::from("b"), String::from("c")]);
}
