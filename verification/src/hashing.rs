//! Hashing that ignores storage order: what a hasher is to be fed is a
//! sorted copy of the elements, so that equal tuples feed it the same
//! sequence.

use crate::equality::is_matching;
use crate::equality::matchable;
use crate::laws::equality_is_reflexive;
use crate::laws::lemma_equality_is_same_elements;
use crate::laws::lemma_matching_chains;
use crate::laws::lemma_matching_turns;
use crate::laws::lemma_two_share;
use crate::laws::lemma_same_elements_matchable;
use crate::tuple::UnorderedNTuple;
use std::cmp::Ordering;
use vstd::laws_cmp::obeys_cmp;
use vstd::laws_cmp::obeys_cmp_ord;
use vstd::laws_cmp::obeys_cmp_partial_ord;
use vstd::laws_cmp::obeys_partial_cmp_spec_properties;
use vstd::laws_eq::obeys_concrete_eq;
use vstd::laws_eq::obeys_eq_spec_properties;
use vstd::prelude::*;
use vstd::relations::sorted_by;
use vstd::relations::total_ordering;
use vstd::relations::transitive;
use vstd::seq_lib::lemma_sorted_unique;
use vstd::std_specs::cmp::OrdSpec;
use vstd::std_specs::cmp::PartialEqSpec;
use vstd::std_specs::cmp::PartialOrdSpec;

verus! {

/// `x` comes no later than `y` in the element type's order.
pub open spec fn precedes<T: Ord>(x: T, y: T) -> bool {
    x.cmp_spec(&y) != Ordering::Greater
}

/// The order of the element type, as a relation.
pub open spec fn element_order<T: Ord>() -> spec_fn(T, T) -> bool {
    |x: T, y: T| precedes(x, y)
}

/// The element type's comparisons behave as their specifications say and
/// order all values in one line, in which several values may tie.
pub open spec fn orders_totally<T: Ord>() -> bool {
    obeys_cmp::<T>() && transitive(element_order::<T>())
}

/// The element type's comparisons form a total order in which only a value
/// and itself compare as equal.
pub open spec fn orders_exactly<T: Ord>() -> bool {
    obeys_cmp::<T>() && obeys_concrete_eq::<T>()
}

/// A clone of an element is that element.
pub open spec fn clones_exactly<T: Clone>() -> bool {
    forall|x: T, y: T| #[trigger] cloned(x, y) ==> x == y
}

/// `copy` holds, position by position, a clone of what `source` holds.
pub open spec fn is_copy_of<T: Clone>(copy: Seq<T>, source: Seq<T>) -> bool {
    &&& copy.len() == source.len()
    &&& forall|i: int| 0 <= i < source.len() ==> cloned(source[i], #[trigger] copy[i])
}

/// Under [`orders_exactly`], [`element_order`] is a total order, so
/// [`orders_totally`] holds too.
pub proof fn lemma_element_order_total<T: Ord>()
    requires
        orders_exactly::<T>(),
    ensures
        total_ordering(element_order::<T>()),
        orders_totally::<T>(),
{
    reveal(obeys_concrete_eq);
    reveal(obeys_cmp_ord);
    reveal(obeys_cmp_partial_ord);
    reveal(obeys_partial_cmp_spec_properties);
    let order = element_order::<T>();
    assert forall|x: T| #[trigger] order(x, x) by {
        assert(x.eq_spec(&x));
        assert(x.partial_cmp_spec(&x) == Some(x.cmp_spec(&x)));
    }
    assert forall|x: T, y: T| #[trigger] order(x, y) && #[trigger] order(y, x) implies x == y by {
        assert(x.partial_cmp_spec(&y) == Some(x.cmp_spec(&y)));
        assert(y.partial_cmp_spec(&x) == Some(y.cmp_spec(&x)));
        assert(x.eq_spec(&y));
    }
    assert forall|x: T, y: T, z: T| #[trigger] order(x, y) && #[trigger] order(y, z) implies order(
        x,
        z,
    ) by {
        assert(x.partial_cmp_spec(&y) == Some(x.cmp_spec(&y)));
        assert(y.partial_cmp_spec(&z) == Some(y.cmp_spec(&z)));
        assert(x.partial_cmp_spec(&z) == Some(x.cmp_spec(&z)));
        if x.cmp_spec(&y) == Ordering::Equal {
            assert(x.eq_spec(&y));
        } else if y.cmp_spec(&z) == Ordering::Equal {
            assert(y.eq_spec(&z));
        }
    }
    assert forall|x: T, y: T| #[trigger] order(x, y) || #[trigger] order(y, x) by {
        assert(x.partial_cmp_spec(&y) == Some(x.cmp_spec(&y)));
        assert(y.partial_cmp_spec(&x) == Some(y.cmp_spec(&x)));
    }
}

/// `sort` of slices, on an array: afterwards the array holds the elements it
/// held before, each as often as before, in ascending order. The order has
/// to be total, as `sort` may panic on one that is not. Nothing is proved of
/// it here.
#[verifier::external_body]
fn sort_elements<T: Ord, const N: usize>(elements: &mut [T; N])
    requires
        orders_totally::<T>(),
    ensures
        sorted_by(final(elements)@, element_order::<T>()),
        final(elements)@.to_multiset() == old(elements)@.to_multiset(),
{
    elements.sort();
}

impl<T: Ord, const N: usize> UnorderedNTuple<T, N> {
    /// The one ascending arrangement of the elements. It is the same for
    /// every storage order of the same elements.
    pub open spec fn canonical(&self) -> Seq<T> {
        self@.sort_by(element_order::<T>())
    }

    /// The elements in ascending order. Where only a value and itself
    /// compare as equal, that is the canonical arrangement.
    pub fn into_sorted(self) -> (sorted: [T; N])
        requires
            orders_totally::<T>(),
        ensures
            sorted_by(sorted@, element_order::<T>()),
            sorted@.to_multiset() == self.elements(),
            obeys_concrete_eq::<T>() ==> sorted@ == self.canonical(),
    {
        let mut elements = self.0;
        sort_elements(&mut elements);
        proof {
            if obeys_concrete_eq::<T>() {
                let order = element_order::<T>();
                lemma_element_order_total::<T>();
                self@.lemma_sort_by_ensures(order);
                lemma_sorted_unique(elements@, self@.sort_by(order), order);
            }
        }
        elements
    }

    /// What a hasher is to be fed for this tuple: a copy of the elements in
    /// ascending order. Where a clone of an element is that element, the
    /// copy holds the tuple's own elements; where moreover only a value and
    /// itself compare as equal, it is the canonical arrangement, the same
    /// for every storage order.
    pub fn sorted(&self) -> (fed: [T; N]) where T: Clone
        requires
            orders_totally::<T>(),
        ensures
            sorted_by(fed@, element_order::<T>()),
            exists|copy: Seq<T>| #[trigger]
                is_copy_of(copy, self@) && fed@.to_multiset() == copy.to_multiset(),
            clones_exactly::<T>() ==> fed@.to_multiset() == self.elements(),
            clones_exactly::<T>() && obeys_concrete_eq::<T>() ==> fed@ == self.canonical(),
    {
        let copy = UnorderedNTuple(self.0.clone());
        proof {
            assert(is_copy_of(copy@, self@));
            if clones_exactly::<T>() {
                assert(copy@ =~= self@);
            }
        }
        copy.into_sorted()
    }
}

/// Equal tuples have the same canonical arrangement, and so feed a hasher
/// the same sequence.
pub proof fn lemma_equal_tuples_hash_alike<T: Ord, const N: usize>(
    a: UnorderedNTuple<T, N>,
    b: UnorderedNTuple<T, N>,
)
    requires
        orders_exactly::<T>(),
        a.eq_spec(&b),
    ensures
        a.canonical() == b.canonical(),
{
    lemma_equality_is_same_elements(a, b);
    let order = element_order::<T>();
    lemma_element_order_total::<T>();
    a@.lemma_sort_by_ensures(order);
    b@.lemma_sort_by_ensures(order);
    lemma_sorted_unique(a@.sort_by(order), b@.sort_by(order), order);
}

/// What the comparisons of a totally ordered type tell of each other.
proof fn lemma_comparisons_agree<T: Ord>(x: T, y: T)
    requires
        obeys_cmp::<T>(),
    ensures
        x.eq_spec(&y) <==> x.cmp_spec(&y) == Ordering::Equal,
        x.eq_spec(&y) <==> y.eq_spec(&x),
        x.cmp_spec(&y) == Ordering::Less <==> y.cmp_spec(&x) == Ordering::Greater,
        x.eq_spec(&x),
{
    reveal(obeys_cmp_ord);
    reveal(obeys_cmp_partial_ord);
    reveal(obeys_partial_cmp_spec_properties);
    reveal(obeys_eq_spec_properties);
    assert(x.partial_cmp_spec(&y) == Some(x.cmp_spec(&y)));
    assert(y.partial_cmp_spec(&x) == Some(y.cmp_spec(&x)));
    assert(x.partial_cmp_spec(&x) == Some(x.cmp_spec(&x)));
}

/// In two sorted sequences that can be matched, no element comes before the
/// one at its own position in the other.
proof fn lemma_no_gap<T: Ord>(x: Seq<T>, y: Seq<T>, pairing: Seq<int>, at: int)
    requires
        orders_totally::<T>(),
        is_matching(x, y, pairing),
        sorted_by(x, element_order::<T>()),
        sorted_by(y, element_order::<T>()),
        0 <= at < x.len(),
    ensures
        x[at].cmp_spec(&y[at]) != Ordering::Less,
{
    let order = element_order::<T>();
    if x[at].cmp_spec(&y[at]) == Ordering::Less {
        lemma_comparisons_agree(x[at], y[at]);
        assert(!order(y[at], x[at]));
        assert forall|k: int| 0 <= k <= at implies 0 <= #[trigger] pairing[k] < at by {
            let slot = pairing[k];
            if slot >= at {
                lemma_comparisons_agree(x[k], y[slot]);
                lemma_comparisons_agree(y[slot], x[k]);
                lemma_comparisons_agree(x[at], x[at]);
                lemma_comparisons_agree(y[at], y[at]);
                assert(x[k].eq_spec(&y[slot]));
                assert(order(y[slot], x[k]));
                assert(order(y[at], y[slot]));
                assert(order(x[k], x[at]));
                assert(order(y[at], x[k]));
                assert(order(y[at], x[at]));
            }
        }
        let first = pairing.take(at + 1);
        lemma_two_share(first, at);
        let (k, l) = choose|k: int, l: int| 0 <= k < l <= at && first[k] == first[l];
        assert(pairing[k] != pairing[l]);
    }
}

/// Two sorted sequences that can be matched hold equal elements at every
/// position.
pub proof fn lemma_sorted_matching_aligned<T: Ord>(x: Seq<T>, y: Seq<T>)
    requires
        orders_totally::<T>(),
        matchable(x, y),
        sorted_by(x, element_order::<T>()),
        sorted_by(y, element_order::<T>()),
    ensures
        x.len() == y.len(),
        forall|i: int| 0 <= i < x.len() ==> #[trigger] x[i].eq_spec(&y[i]),
{
    let pairing = choose|order: Seq<int>| is_matching(x, y, order);
    lemma_matching_turns(x, y);
    let back = choose|order: Seq<int>| is_matching(y, x, order);
    assert forall|i: int| 0 <= i < x.len() implies #[trigger] x[i].eq_spec(&y[i]) by {
        lemma_no_gap(x, y, pairing, i);
        lemma_no_gap(y, x, back, i);
        lemma_comparisons_agree(x[i], y[i]);
        lemma_comparisons_agree(y[i], x[i]);
    }
}

/// The sorted copies of equal tuples hold equal elements at every position,
/// whatever the element type's equality is.
pub proof fn lemma_equal_tuples_sorted_alike<T: Ord, const N: usize>(
    a: UnorderedNTuple<T, N>,
    b: UnorderedNTuple<T, N>,
    fed_a: Seq<T>,
    fed_b: Seq<T>,
)
    requires
        orders_totally::<T>(),
        a.eq_spec(&b),
        sorted_by(fed_a, element_order::<T>()),
        sorted_by(fed_b, element_order::<T>()),
        fed_a.to_multiset() == a.elements(),
        fed_b.to_multiset() == b.elements(),
    ensures
        fed_a.len() == fed_b.len(),
        forall|i: int| 0 <= i < fed_a.len() ==> #[trigger] fed_a[i].eq_spec(&fed_b[i]),
{
    assert(equality_is_reflexive::<T>()) by {
        assert forall|x: T| #[trigger] x.eq_spec(&x) by {
            lemma_comparisons_agree(x, x);
        }
    }
    lemma_same_elements_matchable(fed_a, a@);
    lemma_same_elements_matchable(b@, fed_b);
    lemma_matching_chains(fed_a, a@, b@);
    lemma_matching_chains(fed_a, b@, fed_b);
    lemma_sorted_matching_aligned(fed_a, fed_b);
}

} // verus!
