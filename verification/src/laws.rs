//! What holds of equality and of the conversions, for every tuple.

use crate::equality::is_matching;
use crate::equality::is_rearrangement;
use crate::equality::matchable;
use crate::tuple::UnorderedNTuple;
use crate::tuple::UnorderedPair;
use vstd::laws_eq::obeys_concrete_eq;
use vstd::laws_eq::obeys_eq;
use vstd::laws_eq::obeys_eq_spec_properties;
use vstd::prelude::*;
use vstd::std_specs::cmp::PartialEqSpec;
use vstd::std_specs::convert::FromSpec;

verus! {

/// Every value of the element type equals itself.
pub open spec fn equality_is_reflexive<T: PartialEq>() -> bool {
    forall|x: T| #[trigger] x.eq_spec(&x)
}

/// What is left of a rearrangement of `n + 1` positions when its last entry
/// goes and the positions behind the one it named move down by one.
pub open spec fn without_last(order: Seq<int>) -> Seq<int> {
    Seq::new(
        (order.len() - 1) as nat,
        |i: int|
            if order[i] > order.last() {
                order[i] - 1
            } else {
                order[i]
            },
    )
}

/// Taking the last entry out of a rearrangement leaves a rearrangement.
pub proof fn lemma_without_last(order: Seq<int>, n: nat)
    requires
        n > 0,
        is_rearrangement(order, n),
    ensures
        is_rearrangement(without_last(order), (n - 1) as nat),
{
    let shorter = without_last(order);
    let last = n - 1;
    assert forall|i: int| 0 <= i < last implies 0 <= #[trigger] shorter[i] < last by {
        assert(order[i] != order[last]);
    }
    assert forall|i: int, j: int| 0 <= i < j < last implies shorter[i] != shorter[j] by {
        assert(order[i] != order[j]);
        assert(order[i] != order[last]);
        assert(order[j] != order[last]);
    }
}

/// A rearrangement reaches every position.
pub proof fn lemma_rearrangement_reaches(order: Seq<int>, n: nat, target: int)
    requires
        is_rearrangement(order, n),
        0 <= target < n,
    ensures
        exists|i: int| 0 <= i < n && order[i] == target,
    decreases n,
{
    let last = n - 1;
    let taken = order[last];
    if target != taken {
        let shorter = without_last(order);
        lemma_without_last(order, n);
        let moved = if target > taken {
            target - 1
        } else {
            target
        };
        lemma_rearrangement_reaches(shorter, last as nat, moved);
        let i = choose|i: int| 0 <= i < last && shorter[i] == moved;
        assert(order[i] != taken);
        assert(order[i] == target);
    }
}

/// The position at which a rearrangement names `target`.
pub open spec fn position_of(order: Seq<int>, target: int) -> int {
    choose|i: int| 0 <= i < order.len() && order[i] == target
}

/// The rearrangement that undoes `order`.
pub open spec fn inverse(order: Seq<int>) -> Seq<int> {
    Seq::new(order.len(), |target: int| position_of(order, target))
}

/// The inverse of a rearrangement is a rearrangement, and each undoes the
/// other.
pub proof fn lemma_inverse(order: Seq<int>, n: nat)
    requires
        is_rearrangement(order, n),
    ensures
        is_rearrangement(inverse(order), n),
        forall|j: int| 0 <= j < n ==> order[#[trigger] inverse(order)[j]] == j,
        forall|i: int| 0 <= i < n ==> inverse(order)[#[trigger] order[i]] == i,
{
    let back = inverse(order);
    assert forall|j: int| 0 <= j < n implies 0 <= #[trigger] back[j] < n && order[back[j]] == j by {
        lemma_rearrangement_reaches(order, n, j);
    }
    assert forall|i: int| 0 <= i < n implies back[#[trigger] order[i]] == i by {
        let j = order[i];
        let k = back[j];
        assert(order[k] == j);
        if k < i {
            assert(order[k] != order[i]);
        } else if i < k {
            assert(order[i] != order[k]);
        }
    }
    assert forall|i: int, j: int| 0 <= i < j < n implies back[i] != back[j] by {
        assert(order[back[i]] == i);
        assert(order[back[j]] == j);
    }
}

/// A sequence that takes its elements from another, each position of the
/// other exactly once, holds the same elements as often.
pub proof fn lemma_rearranged_elements<T>(a: Seq<T>, b: Seq<T>, order: Seq<int>)
    requires
        a.len() == b.len(),
        is_rearrangement(order, a.len()),
        forall|i: int| 0 <= i < b.len() ==> b[i] == a[order[i]],
    ensures
        b.to_multiset() =~= a.to_multiset(),
    decreases a.len(),
{
    broadcast use vstd::multiset::group_multiset_axioms;

    if a.len() == 0 {
        assert(a =~= b);
    } else {
        let last = b.len() - 1;
        let taken = order[last];
        let shorter = without_last(order);
        lemma_without_last(order, a.len());
        assert forall|i: int| 0 <= i < last implies b.drop_last()[i] == a.remove(taken)[shorter[i]] by {
            assert(order[i] != taken);
        }
        lemma_rearranged_elements(a.remove(taken), b.drop_last(), shorter);
        a.to_multiset_ensures();
        b.drop_last().to_multiset_ensures();
        assert(b =~= b.drop_last().push(b[last]));
        assert(a.contains(a[taken]));
    }
}

/// Two sequences that hold the same elements as often take their elements
/// from each other, each position exactly once.
pub proof fn lemma_same_elements_rearranged<T>(a: Seq<T>, b: Seq<T>)
    requires
        a.to_multiset() == b.to_multiset(),
    ensures
        a.len() == b.len(),
        exists|order: Seq<int>|
            is_rearrangement(order, a.len()) && forall|i: int|
                0 <= i < a.len() ==> a[i] == b[#[trigger] order[i]],
    decreases a.len(),
{
    broadcast use vstd::multiset::group_multiset_axioms;

    a.to_multiset_ensures();
    b.to_multiset_ensures();
    if a.len() == 0 {
        let order = Seq::<int>::empty();
        assert(is_rearrangement(order, a.len()) && forall|i: int|
            0 <= i < a.len() ==> a[i] == b[#[trigger] order[i]]);
    } else {
        let last = a.len() - 1;
        let x = a[last];
        assert(a.contains(x));
        assert(a.to_multiset().count(x) > 0);
        assert(b.to_multiset().count(x) > 0);
        assert(b.contains(x));
        let at = choose|k: int| 0 <= k < b.len() && b[k] == x;
        assert(a.remove(last) =~= a.drop_last());
        lemma_same_elements_rearranged(a.drop_last(), b.remove(at));
        let shorter = choose|order: Seq<int>|
            is_rearrangement(order, a.drop_last().len()) && forall|i: int|
                0 <= i < a.drop_last().len() ==> a.drop_last()[i] == b.remove(at)[#[trigger] order[i]];
        let order = Seq::new(
            a.len(),
            |i: int|
                if i == last {
                    at
                } else if shorter[i] >= at {
                    shorter[i] + 1
                } else {
                    shorter[i]
                },
        );
        assert forall|i: int| 0 <= i < a.len() implies 0 <= #[trigger] order[i] < a.len() by {
            if i != last {
                assert(0 <= shorter[i] < last);
            }
        }
        assert forall|i: int, j: int| 0 <= i < j < a.len() implies order[i] != order[j] by {
            assert(0 <= shorter[i] < last);
            if j != last {
                assert(shorter[i] != shorter[j]);
            }
        }
        assert forall|i: int| 0 <= i < a.len() implies a[i] == b[#[trigger] order[i]] by {
            if i != last {
                assert(0 <= shorter[i] < last);
                assert(a.drop_last()[i] == b.remove(at)[shorter[i]]);
            }
        }
        assert(is_rearrangement(order, a.len()));
    }
}

/// A tuple equals itself, where every element equals itself.
pub proof fn lemma_equality_reflexive<T: PartialEq, const N: usize>(a: UnorderedNTuple<T, N>)
    requires
        equality_is_reflexive::<T>(),
    ensures
        a.eq_spec(&a),
{
    let order = Seq::new(a@.len(), |i: int| i);
    assert(is_matching(a@, a@, order));
}

/// Equality of tuples is symmetric, where equality of the elements is
/// symmetric and transitive.
pub proof fn lemma_equality_symmetric<T: PartialEq, const N: usize>(
    a: UnorderedNTuple<T, N>,
    b: UnorderedNTuple<T, N>,
)
    requires
        obeys_eq_spec_properties::<T>(),
    ensures
        a.eq_spec(&b) <==> b.eq_spec(&a),
{
    if a.eq_spec(&b) {
        lemma_matching_turns(a@, b@);
    }
    if b.eq_spec(&a) {
        lemma_matching_turns(b@, a@);
    }
}

/// Among `room + 1` positions below `room`, two are the same.
pub proof fn lemma_two_share(places: Seq<int>, room: int)
    requires
        room >= 0,
        places.len() == room + 1,
        forall|k: int| 0 <= k <= room ==> 0 <= #[trigger] places[k] < room,
    ensures
        exists|k: int, l: int| 0 <= k < l <= room && places[k] == places[l],
    decreases room,
{
    if room == 0 {
        let only = places[0];
        assert(0 <= only < room);
    } else {
        let taken = places[room];
        assert(0 <= taken < room);
        if exists|k: int| 0 <= k < room && places[k] == taken {
            let k = choose|k: int| 0 <= k < room && places[k] == taken;
            assert(0 <= k < room <= room && places[k] == places[room]);
        } else {
            let fewer = Seq::new(
                room as nat,
                |k: int|
                    if places[k] > taken {
                        places[k] - 1
                    } else {
                        places[k]
                    },
            );
            assert forall|k: int| 0 <= k <= room - 1 implies 0 <= #[trigger] fewer[k] < room
                - 1 by {
                assert(0 <= places[k] < room);
                assert(places[k] != taken);
            }
            lemma_two_share(fewer, room - 1);
            let (k, l) = choose|k: int, l: int|
                0 <= k < l <= room - 1 && fewer[k] == fewer[l];
            assert(places[k] != taken);
            assert(places[l] != taken);
            assert(0 <= k < l <= room && places[k] == places[l]);
        }
    }
}

/// Two sequences that hold the same elements as often can be matched, where
/// every element equals itself.
pub proof fn lemma_same_elements_matchable<T: PartialEq>(a: Seq<T>, b: Seq<T>)
    requires
        equality_is_reflexive::<T>(),
        a.to_multiset() == b.to_multiset(),
    ensures
        matchable(a, b),
{
    lemma_same_elements_rearranged(a, b);
    let order = choose|order: Seq<int>|
        is_rearrangement(order, a.len()) && forall|i: int|
            0 <= i < a.len() ==> a[i] == b[#[trigger] order[i]];
    assert(is_matching(a, b, order));
}

/// A matching can be read from either side.
pub proof fn lemma_matching_turns<T: PartialEq>(a: Seq<T>, b: Seq<T>)
    requires
        obeys_eq_spec_properties::<T>(),
        matchable(a, b),
    ensures
        matchable(b, a),
{
    reveal(obeys_eq_spec_properties);
    let order = choose|order: Seq<int>| is_matching(a, b, order);
    lemma_inverse(order, a.len());
    let back = inverse(order);
    assert forall|j: int| 0 <= j < b.len() implies b[j].eq_spec(&a[#[trigger] back[j]]) by {
        let i = back[j];
        assert(a[i].eq_spec(&b[order[i]]));
    }
    assert(is_matching(b, a, back));
}

/// Two matchings in a row give a matching.
pub proof fn lemma_matching_chains<T: PartialEq>(a: Seq<T>, b: Seq<T>, c: Seq<T>)
    requires
        obeys_eq_spec_properties::<T>(),
        matchable(a, b),
        matchable(b, c),
    ensures
        matchable(a, c),
{
    reveal(obeys_eq_spec_properties);
    let first = choose|order: Seq<int>| is_matching(a, b, order);
    let second = choose|order: Seq<int>| is_matching(b, c, order);
    let both = Seq::new(a.len(), |i: int| second[first[i]]);
    assert forall|i: int| 0 <= i < a.len() implies 0 <= #[trigger] both[i] < a.len()
        && a[i].eq_spec(&c[both[i]]) by {
        let j = first[i];
        assert(a[i].eq_spec(&b[j]));
        assert(b[j].eq_spec(&c[second[j]]));
    }
    assert forall|i: int, j: int| 0 <= i < j < a.len() implies both[i] != both[j] by {
        let p = first[i];
        let q = first[j];
        assert(p != q);
        if p < q {
            assert(second[p] != second[q]);
        } else {
            assert(second[q] != second[p]);
        }
    }
    assert(is_matching(a, c, both));
}

/// Equality of tuples is transitive, where equality of the elements is
/// symmetric and transitive.
pub proof fn lemma_equality_transitive<T: PartialEq, const N: usize>(
    a: UnorderedNTuple<T, N>,
    b: UnorderedNTuple<T, N>,
    c: UnorderedNTuple<T, N>,
)
    requires
        obeys_eq_spec_properties::<T>(),
        a.eq_spec(&b),
        b.eq_spec(&c),
    ensures
        a.eq_spec(&c),
{
    lemma_matching_chains(a@, b@, c@);
}

/// Where the elements' equality is symmetric and transitive, so is that of
/// the tuples: tuples of tuples compare as tuples do.
pub proof fn lemma_tuples_obey_eq<T: PartialEq, const N: usize>()
    requires
        obeys_eq::<T>(),
    ensures
        obeys_eq::<UnorderedNTuple<T, N>>(),
{
    reveal(obeys_eq_spec_properties);
    assert forall|x: UnorderedNTuple<T, N>, y: UnorderedNTuple<T, N>| #[trigger]
        x.eq_spec(&y) <==> y.eq_spec(&x) by {
        lemma_equality_symmetric(x, y);
    }
    assert forall|
        x: UnorderedNTuple<T, N>,
        y: UnorderedNTuple<T, N>,
        z: UnorderedNTuple<T, N>,
    | x.eq_spec(&y) && #[trigger] y.eq_spec(&z) implies #[trigger] x.eq_spec(&z) by {
        lemma_equality_transitive(x, y, z);
    }
}

/// Where two elements are equal only if they are the same value, two tuples
/// are equal exactly when every value occurs in one as often as in the
/// other.
pub proof fn lemma_equality_is_same_elements<T: PartialEq, const N: usize>(
    a: UnorderedNTuple<T, N>,
    b: UnorderedNTuple<T, N>,
)
    requires
        obeys_concrete_eq::<T>(),
    ensures
        a.eq_spec(&b) <==> a.elements() == b.elements(),
        a.eq_spec(&b) <==> forall|value: T| a.elements().count(value) == b.elements().count(value),
{
    broadcast use vstd::multiset::group_multiset_axioms;

    reveal(obeys_concrete_eq);
    if a.eq_spec(&b) {
        let order = choose|order: Seq<int>| is_matching(a@, b@, order);
        assert forall|i: int| 0 <= i < a@.len() implies a@[i] == b@[order[i]] by {
            assert(a@[i].eq_spec(&b@[order[i]]));
        }
        lemma_rearranged_elements(b@, a@, order);
    }
    if a.elements() == b.elements() {
        lemma_same_elements_rearranged(a@, b@);
        let order = choose|order: Seq<int>|
            is_rearrangement(order, a@.len()) && forall|i: int|
                0 <= i < a@.len() ==> a@[i] == b@[#[trigger] order[i]];
        assert(is_matching(a@, b@, order));
    }
    assert(a.elements() =~= b.elements() <==> a.elements() == b.elements());
}

/// A tuple equals every tuple that stores its elements in another order.
pub proof fn lemma_permutation_invariance<T: PartialEq, const N: usize>(
    a: UnorderedNTuple<T, N>,
    b: UnorderedNTuple<T, N>,
    order: Seq<int>,
)
    requires
        equality_is_reflexive::<T>(),
        is_rearrangement(order, a@.len()),
        forall|i: int| 0 <= i < N ==> b@[i] == a@[order[i]],
    ensures
        a.eq_spec(&b),
        b.eq_spec(&a),
{
    assert(is_matching(b@, a@, order));
    lemma_inverse(order, a@.len());
    let back = inverse(order);
    assert forall|j: int| 0 <= j < a@.len() implies a@[j].eq_spec(&b@[#[trigger] back[j]]) by {
        assert(b@[back[j]] == a@[order[back[j]]]);
    }
    assert(is_matching(a@, b@, back));
}

/// Two tuples that store the same elements in the same order are equal,
/// where every element equals itself. So a tuple that was encoded and
/// decoded again equals the one it came from.
pub proof fn lemma_same_storage_equal<T: PartialEq, const N: usize>(
    a: UnorderedNTuple<T, N>,
    b: UnorderedNTuple<T, N>,
)
    requires
        equality_is_reflexive::<T>(),
        a@ == b@,
    ensures
        a.eq_spec(&b),
        b.eq_spec(&a),
{
    let order = Seq::new(a@.len(), |i: int| i);
    lemma_permutation_invariance(a, b, order);
}

/// Tuples of one element are equal exactly when their elements are.
pub proof fn lemma_singleton_equality<T: PartialEq>(
    a: UnorderedNTuple<T, 1>,
    b: UnorderedNTuple<T, 1>,
)
    ensures
        a.eq_spec(&b) <==> a@[0].eq_spec(&b@[0]),
{
    if a@[0].eq_spec(&b@[0]) {
        assert(is_matching(a@, b@, seq![0int]));
    }
    if a.eq_spec(&b) {
        let order = choose|order: Seq<int>| is_matching(a@, b@, order);
        assert(order[0] == 0);
    }
}

/// Two pairs are equal exactly when their elements are equal the same way
/// round or swapped. So a pair that holds a value twice differs from every
/// pair that holds it once.
pub proof fn lemma_pair_equality<T: PartialEq>(a: UnorderedPair<T>, b: UnorderedPair<T>)
    ensures
        a.eq_spec(&b) <==> (a@[0].eq_spec(&b@[0]) && a@[1].eq_spec(&b@[1])) || (a@[0].eq_spec(
            &b@[1],
        ) && a@[1].eq_spec(&b@[0])),
{
    if a@[0].eq_spec(&b@[0]) && a@[1].eq_spec(&b@[1]) {
        assert(is_matching(a@, b@, seq![0int, 1int]));
    }
    if a@[0].eq_spec(&b@[1]) && a@[1].eq_spec(&b@[0]) {
        assert(is_matching(a@, b@, seq![1int, 0int]));
    }
    if a.eq_spec(&b) {
        let order = choose|order: Seq<int>| is_matching(a@, b@, order);
        assert(0 <= order[0] < 2 && 0 <= order[1] < 2);
        assert(order[0] != order[1]);
    }
}

/// Multiplicities count: two pairs that agree in one element and differ in
/// the other are not equal.
pub proof fn lemma_pair_difference<T: PartialEq>(a: UnorderedPair<T>, b: UnorderedPair<T>)
    requires
        obeys_eq_spec_properties::<T>(),
        a@[0].eq_spec(&b@[0]),
        !a@[1].eq_spec(&b@[1]),
    ensures
        !a.eq_spec(&b),
        !b.eq_spec(&a),
{
    reveal(obeys_eq_spec_properties);
    lemma_pair_equality(a, b);
    lemma_equality_symmetric(a, b);
    if a@[0].eq_spec(&b@[1]) && a@[1].eq_spec(&b@[0]) {
        assert(b@[0].eq_spec(&a@[0]));
        assert(a@[1].eq_spec(&a@[0]));
        assert(a@[1].eq_spec(&b@[1]));
    }
}

/// A plain pair that becomes an unordered pair and a plain pair again comes
/// back with the same two values, here even the same way round.
pub proof fn lemma_pair_round_trip<T>(first: T, second: T)
    ensures
        <(T, T)>::from_spec(UnorderedPair::<T>::from_spec((first, second))) == (first, second),
        UnorderedPair::<T>::from_spec((first, second))@ =~= seq![first, second],
{
}

} // verus!
