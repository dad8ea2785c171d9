//! Unordered tuples of a fixed number of elements of one type.
//!
//! An [`UnorderedNTuple`] holds exactly `N` values. Two of them are equal when
//! they hold the same values with the same multiplicities, in whatever order
//! the values happen to be stored.

pub mod codec;
pub mod equality;
pub mod hashing;
pub mod laws;
pub mod tuple;

pub use tuple::UnorderedNTuple;
pub use tuple::UnorderedPair;
