//! Equality of unordered tuples: two tuples are equal when the elements of
//! one can be paired off with equal elements of the other, each used once.

use crate::tuple::UnorderedNTuple;
use vstd::laws_eq::obeys_eq;
use vstd::laws_eq::obeys_eq_spec_properties;
use vstd::prelude::*;
use vstd::std_specs::cmp::PartialEqSpec;
use vstd::std_specs::cmp::PartialEqSpecImpl;

verus! {

/// `order` names every position of a sequence of length `n` exactly once.
pub open spec fn is_rearrangement(order: Seq<int>, n: nat) -> bool {
    &&& order.len() == n
    &&& forall|i: int| 0 <= i < n ==> 0 <= #[trigger] order[i] < n
    &&& forall|i: int, j: int| 0 <= i < j < n ==> order[i] != order[j]
}

/// `order` pairs every position `i` of `a` with the position `order[i]` of
/// `b`, no position of `b` twice, and paired elements are equal.
pub open spec fn is_matching<T: PartialEq>(a: Seq<T>, b: Seq<T>, order: Seq<int>) -> bool {
    &&& a.len() == b.len()
    &&& is_rearrangement(order, a.len())
    &&& forall|i: int| 0 <= i < a.len() ==> a[i].eq_spec(&b[#[trigger] order[i]])
}

/// The elements of `a` can be paired off with equal elements of `b`.
pub open spec fn matchable<T: PartialEq>(a: Seq<T>, b: Seq<T>) -> bool {
    exists|order: Seq<int>| is_matching(a, b, order)
}

/// `order` pairs every position of `a` from `start` on with a position of
/// `b` that `used` has not marked, no position twice, and paired elements
/// are equal.
pub open spec fn pairs_rest<T: PartialEq>(
    a: Seq<T>,
    b: Seq<T>,
    used: Seq<bool>,
    start: int,
    order: Seq<int>,
) -> bool {
    &&& order.len() == a.len()
    &&& forall|i: int|
        start <= i < a.len() ==> {
            &&& 0 <= #[trigger] order[i] < b.len()
            &&& !used[order[i]]
            &&& a[i].eq_spec(&b[order[i]])
        }
    &&& forall|i: int, j: int| start <= i < j < a.len() ==> order[i] != order[j]
}

/// The elements of `a` from `start` on can still be paired off with equal
/// elements of `b` at unmarked positions.
pub open spec fn can_finish<T: PartialEq>(a: Seq<T>, b: Seq<T>, used: Seq<bool>, start: int) -> bool {
    exists|order: Seq<int>| pairs_rest(a, b, used, start, order)
}

proof fn lemma_eq_chain<T: PartialEq>(x: T, y: T, z: T, w: T)
    requires
        obeys_eq_spec_properties::<T>(),
        x.eq_spec(&y),
        z.eq_spec(&y),
        z.eq_spec(&w),
    ensures
        x.eq_spec(&w),
{
    reveal(obeys_eq_spec_properties);
    assert(y.eq_spec(&z));
    assert(x.eq_spec(&z));
}

/// Before anything is marked, what can be finished from the first position
/// is what can be matched at all.
pub proof fn lemma_can_finish_at_start<T: PartialEq>(a: Seq<T>, b: Seq<T>, used: Seq<bool>)
    requires
        a.len() == b.len(),
        used.len() == b.len(),
        forall|j: int| 0 <= j < used.len() ==> !used[j],
    ensures
        matchable(a, b) <==> can_finish(a, b, used, 0),
{
    if matchable(a, b) {
        let order = choose|order: Seq<int>| is_matching(a, b, order);
        assert(pairs_rest(a, b, used, 0, order));
    }
    if can_finish(a, b, used, 0) {
        let order = choose|order: Seq<int>| pairs_rest(a, b, used, 0, order);
        assert(is_matching(a, b, order));
    }
}

/// Past the last position nothing is left to pair.
pub proof fn lemma_can_finish_at_end<T: PartialEq>(a: Seq<T>, b: Seq<T>, used: Seq<bool>)
    ensures
        can_finish(a, b, used, a.len() as int),
{
    let order = Seq::new(a.len(), |i: int| 0int);
    assert(pairs_rest(a, b, used, a.len() as int, order));
}

/// An element that equals no unmarked element of `b` cannot be paired.
pub proof fn lemma_cannot_finish<T: PartialEq>(a: Seq<T>, b: Seq<T>, used: Seq<bool>, start: int)
    requires
        0 <= start < a.len(),
        forall|j: int| 0 <= j < b.len() ==> used[j] || !a[start].eq_spec(&b[j]),
    ensures
        !can_finish(a, b, used, start),
{
    if can_finish(a, b, used, start) {
        let order = choose|order: Seq<int>| pairs_rest(a, b, used, start, order);
        let j = order[start];
        assert(used[j] || !a[start].eq_spec(&b[j]));
    }
}

/// Pairing the element at `start` with any unmarked equal element of `b`
/// loses nothing: the rest can be finished afterwards exactly if everything
/// could be finished before.
pub proof fn lemma_claim_is_safe<T: PartialEq>(
    a: Seq<T>,
    b: Seq<T>,
    used: Seq<bool>,
    start: int,
    slot: int,
)
    requires
        obeys_eq_spec_properties::<T>(),
        a.len() == b.len(),
        used.len() == b.len(),
        0 <= start < a.len(),
        0 <= slot < b.len(),
        !used[slot],
        a[start].eq_spec(&b[slot]),
    ensures
        can_finish(a, b, used, start) <==> can_finish(a, b, used.update(slot, true), start + 1),
{
    let marked = used.update(slot, true);
    let next = start + 1;
    if can_finish(a, b, used, start) {
        let order = choose|order: Seq<int>| pairs_rest(a, b, used, start, order);
        if exists|k: int| start < k < a.len() && order[k] == slot {
            let rival = choose|k: int| start < k < a.len() && order[k] == slot;
            let other_slot = order[start];
            let swapped = order.update(rival, other_slot);
            assert forall|i: int| start + 1 <= i < a.len() implies {
                &&& 0 <= #[trigger] swapped[i] < b.len()
                &&& !marked[swapped[i]]
                &&& a[i].eq_spec(&b[swapped[i]])
            } by {
                if i == rival {
                    assert(order[start] != order[rival]);
                    lemma_eq_chain(a[rival], b[slot], a[start], b[other_slot]);
                } else {
                    assert(order[i] != order[rival]);
                }
            }
            assert forall|i: int, j: int| start + 1 <= i < j < a.len() implies swapped[i]
                != swapped[j] by {
                assert(order[start] != order[i]);
                assert(order[start] != order[j]);
                assert(order[i] != order[j]);
            }
            assert(pairs_rest(a, b, marked, next, swapped));
        } else {
            assert forall|i: int| start + 1 <= i < a.len() implies !marked[#[trigger] order[i]] by {
                assert(order[i] != slot);
            }
            assert(pairs_rest(a, b, marked, next, order));
        }
    }
    if can_finish(a, b, marked, next) {
        let order = choose|order: Seq<int>| pairs_rest(a, b, marked, next, order);
        let extended = order.update(start, slot);
        assert forall|i: int| start <= i < a.len() implies {
            &&& 0 <= #[trigger] extended[i] < b.len()
            &&& !used[extended[i]]
            &&& a[i].eq_spec(&b[extended[i]])
        } by {
            if i != start {
                assert(!marked[order[i]]);
            }
        }
        assert forall|i: int, j: int| start <= i < j < a.len() implies extended[i]
            != extended[j] by {
            assert(!marked[order[j]]);
            if i != start {
                assert(order[i] != order[j]);
            }
        }
        assert(pairs_rest(a, b, used, start, extended));
    }
}

impl<T: PartialEq, const N: usize> PartialEqSpecImpl for UnorderedNTuple<T, N> {
    /// The meaning of `==` below is promised for element types whose own
    /// `==` is symmetric and transitive.
    open spec fn obeys_eq_spec() -> bool {
        obeys_eq::<T>()
    }

    /// The elements of one tuple can be paired off with equal elements of
    /// the other, each element used once.
    open spec fn eq_spec(&self, other: &UnorderedNTuple<T, N>) -> bool {
        matchable(self@, other@)
    }
}

impl<T: PartialEq, const N: usize> PartialEq for UnorderedNTuple<T, N> {
    /// Pairs each element of `self`, in storage order, with the first equal
    /// element of `other` that no earlier element has claimed. The tuples
    /// are equal when every element finds its partner.
    fn eq(&self, other: &UnorderedNTuple<T, N>) -> (r: bool) {
        let ghost lawful = obeys_eq::<T>();
        let mut used_indices = [false;N];
        proof {
            lemma_can_finish_at_start(self@, other@, used_indices@);
        }
        let mut i: usize = 0;
        while i < N
            invariant
                i <= N,
                self@.len() == N,
                other@.len() == N,
                used_indices@.len() == N,
                lawful == obeys_eq::<T>(),
                lawful ==> (matchable(self@, other@) <==> can_finish(
                    self@,
                    other@,
                    used_indices@,
                    i as int,
                )),
            decreases N - i,
        {
            let ghost before = used_indices@;
            let mut found = false;
            let mut index: usize = 0;
            while !found && index < N
                invariant
                    i < N,
                    index <= N,
                    self@.len() == N,
                    other@.len() == N,
                    before.len() == N,
                    used_indices@.len() == N,
                    lawful == obeys_eq::<T>(),
                    !found ==> used_indices@ == before,
                    !found && lawful ==> forall|j: int|
                        0 <= j < index ==> used_indices@[j] || !self@[i as int].eq_spec(&other@[j]),
                    found ==> can_finish(self@, other@, before, i as int) == can_finish(
                        self@,
                        other@,
                        used_indices@,
                        i + 1,
                    ) || !lawful,
                decreases N - index + (if found { 0int } else { 1int }),
            {
                if !used_indices[index] && self.0[i] == other.0[index] {
                    used_indices[index] = true;
                    found = true;
                    proof {
                        if lawful {
                            lemma_claim_is_safe(self@, other@, before, i as int, index as int);
                        }
                    }
                } else {
                    index += 1;
                }
            }
            if !found {
                proof {
                    if lawful {
                        lemma_cannot_finish(self@, other@, before, i as int);
                    }
                }
                return false;
            }
            i += 1;
        }
        proof {
            lemma_can_finish_at_end(self@, other@, used_indices@);
        }
        true
    }
}

} // verus!
