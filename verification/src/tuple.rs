//! The tuple type, its mathematical model and its conversions.

use vstd::multiset::Multiset;
use vstd::prelude::*;
use vstd::std_specs::convert::FromSpecImpl;

verus! {

/// An unordered tuple of `N` elements: an unordered pair if `N == 2`, an
/// unordered triple if `N == 3`, and so on.
///
/// The field holds the elements in storage order. That order carries no
/// meaning: equality looks only at which values occur and how often.
#[derive(Copy, Clone, Debug, Eq)]
pub struct UnorderedNTuple<T, const N: usize>(pub [T; N]);

/// An unordered tuple of two elements, convertible to and from a plain pair.
pub type UnorderedPair<T> = UnorderedNTuple<T, 2>;

impl<T, const N: usize> View for UnorderedNTuple<T, N> {
    type V = Seq<T>;

    /// The elements in storage order.
    open spec fn view(&self) -> Seq<T> {
        self.0@
    }
}

impl<T, const N: usize> UnorderedNTuple<T, N> {
    /// What the tuple stands for: its elements counted with multiplicity.
    pub open spec fn elements(&self) -> Multiset<T> {
        self@.to_multiset()
    }
}

/// `Vec::from` on an array: the vector holds the array's elements, in the
/// array's order. Nothing is proved of it here.
#[verifier::external_body]
pub(crate) fn array_into_vec<T, const N: usize>(elements: [T; N]) -> (v: Vec<T>)
    ensures
        v@ == elements@,
{
    Vec::from(elements)
}

/// `TryFrom<Vec<T>>` for an array: a vector of exactly `N` elements becomes
/// the array of those elements, in the vector's order; any other vector
/// comes back untouched as the error. Nothing is proved of it here.
#[verifier::external_body]
pub(crate) fn vec_into_array<T, const N: usize>(elements: Vec<T>) -> (r: Result<[T; N], Vec<T>>)
    ensures
        (match r {
            Ok(array) => elements@.len() == N && array@ == elements@,
            Err(rejected) => elements@.len() != N && rejected == elements,
        }),
{
    <[T; N]>::try_from(elements)
}

impl<T, const N: usize> FromSpecImpl<[T; N]> for UnorderedNTuple<T, N> {
    open spec fn obeys_from_spec() -> bool {
        true
    }

    open spec fn from_spec(arg: [T; N]) -> Self {
        UnorderedNTuple(arg)
    }
}

impl<T, const N: usize> From<[T; N]> for UnorderedNTuple<T, N> {
    /// Wraps the array as it stands.
    fn from(arg: [T; N]) -> (ret: Self) {
        UnorderedNTuple(arg)
    }
}

impl<T, const N: usize> FromSpecImpl<UnorderedNTuple<T, N>> for [T; N] {
    open spec fn obeys_from_spec() -> bool {
        true
    }

    open spec fn from_spec(arg: UnorderedNTuple<T, N>) -> Self {
        arg.0
    }
}

impl<T, const N: usize> From<UnorderedNTuple<T, N>> for [T; N] {
    /// Hands the elements out in storage order.
    fn from(arg: UnorderedNTuple<T, N>) -> (ret: Self) {
        arg.0
    }
}

impl<T> FromSpecImpl<(T, T)> for UnorderedNTuple<T, 2> {
    open spec fn obeys_from_spec() -> bool {
        true
    }

    open spec fn from_spec(tuple: (T, T)) -> Self {
        UnorderedNTuple([tuple.0, tuple.1])
    }
}

impl<T> From<(T, T)> for UnorderedNTuple<T, 2> {
    /// Stores the pair's components in the order `[first, second]`.
    fn from(tuple: (T, T)) -> (ret: Self) {
        UnorderedNTuple([tuple.0, tuple.1])
    }
}

impl<T> FromSpecImpl<UnorderedNTuple<T, 2>> for (T, T) {
    open spec fn obeys_from_spec() -> bool {
        true
    }

    open spec fn from_spec(pair: UnorderedNTuple<T, 2>) -> Self {
        (pair.0[0], pair.0[1])
    }
}

impl<T> From<UnorderedNTuple<T, 2>> for (T, T) {
    /// Hands the two elements out in storage order.
    fn from(pair: UnorderedNTuple<T, 2>) -> (ret: Self) {
        let mut elements = array_into_vec(pair.0);
        let second = elements.pop().unwrap();
        let first = elements.pop().unwrap();
        (first, second)
    }
}

} // verus!
