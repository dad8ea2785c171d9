//! The sequence form of a tuple: exactly `N` elements, in storage order.
//!
//! A serializer writes the elements of [`UnorderedNTuple::into_vec`] (or of
//! the public field) as one sequence of length `N`. A deserializer is led by
//! a [`Decoder`]: it refuses a sequence that announces another length than
//! `N` before anything is read, says whether another element is to be read,
//! and in the end builds the tuple from what it was given.

use crate::tuple::array_into_vec;
use crate::tuple::vec_into_array;
use crate::tuple::UnorderedNTuple;
use vstd::prelude::*;

verus! {

/// Why a sequence was not accepted as a tuple.
#[derive(Copy, Clone, Debug, PartialEq, Eq, Structural)]
pub enum DecodeError {
    /// The sequence does not hold exactly as many elements as the tuple: it
    /// announced another length, or it announced none and turned out
    /// shorter or longer.
    WrongNumberOfElements,
    /// The sequence announced the right length and ended before it had
    /// given that many elements. This is a fault of the sequence, not a
    /// mismatch of lengths.
    EndedEarly,
}

impl DecodeError {
    /// The error in words.
    pub fn message(&self) -> (text: &'static str)
        ensures
            *self == DecodeError::WrongNumberOfElements ==> text@ == "Wrong number of elements"@,
            *self == DecodeError::EndedEarly ==> text@ == "Sequence ended early"@,
    {
        match self {
            DecodeError::WrongNumberOfElements => "Wrong number of elements",
            DecodeError::EndedEarly => "Sequence ended early",
        }
    }
}

impl<T, const N: usize> UnorderedNTuple<T, N> {
    /// The sequence that stands for the tuple: its elements in storage order.
    pub open spec fn encoding(&self) -> Seq<T> {
        self@
    }

    /// What a whole sequence decodes to: the tuple that stores exactly these
    /// elements in this order, if there are `N` of them.
    pub open spec fn decoding(elements: Seq<T>) -> Result<Seq<T>, DecodeError> {
        if elements.len() == N {
            Ok(elements)
        } else {
            Err(DecodeError::WrongNumberOfElements)
        }
    }

    /// Whether an announced length rules the sequence out: it does when it
    /// is known and is not `N`.
    pub open spec fn rules_out(announced: Option<usize>) -> bool {
        announced matches Some(length) && length != N
    }

    /// Accepts what a sequence announces of its length, unless that is a
    /// length other than `N`. To be asked before any element is read.
    pub fn check_length(announced: Option<usize>) -> (r: Result<(), DecodeError>)
        ensures
            (match r {
                Ok(_) => !Self::rules_out(announced),
                Err(error) => Self::rules_out(announced) && error
                    == DecodeError::WrongNumberOfElements,
            }),
    {
        match announced {
            Some(length) => {
                if length == N {
                    Ok(())
                } else {
                    Err(DecodeError::WrongNumberOfElements)
                }
            },
            None => Ok(()),
        }
    }

    /// Hands the elements out as a vector, in storage order.
    pub fn into_vec(self) -> (elements: Vec<T>)
        ensures
            elements@ == self.encoding(),
    {
        array_into_vec(self.0)
    }

    /// Builds the tuple from a vector of exactly `N` elements, keeping their
    /// order as the storage order; any other vector is refused.
    pub fn from_vec(elements: Vec<T>) -> (r: Result<Self, DecodeError>)
        ensures
            (match r {
                Ok(tuple) => Self::decoding(elements@) == Ok::<Seq<T>, DecodeError>(tuple@),
                Err(error) => Self::decoding(elements@) == Err::<Seq<T>, DecodeError>(error),
            }),
    {
        match vec_into_array(elements) {
            Ok(array) => Ok(UnorderedNTuple(array)),
            Err(_) => Err(DecodeError::WrongNumberOfElements),
        }
    }
}

/// The state of reading one tuple from a sequence: the elements kept so far,
/// whether the sequence announced its length, and whether it went on after
/// its `N`th element.
pub struct Decoder<T, const N: usize> {
    elements: Vec<T>,
    announced: bool,
    went_on: bool,
}

impl<T, const N: usize> View for Decoder<T, N> {
    type V = Seq<T>;

    /// The elements kept so far, in the order in which they came.
    closed spec fn view(&self) -> Seq<T> {
        self.elements@
    }
}

impl<T, const N: usize> Decoder<T, N> {
    /// The sequence announced its length (which then was `N`).
    pub closed spec fn length_known(&self) -> bool {
        self.announced
    }

    /// The sequence gave an element after its `N`th.
    pub closed spec fn overrun(&self) -> bool {
        self.went_on
    }

    /// Another element is to be asked for: one of the `N`, or, where the
    /// length is not known, the one after them that shows whether the
    /// sequence goes on.
    pub open spec fn expects_more(&self) -> bool {
        !self.overrun() && (self@.len() < N || (self@.len() == N && !self.length_known()))
    }

    /// What the reading comes to if it ends in this state.
    pub open spec fn outcome(&self) -> Result<Seq<T>, DecodeError> {
        if self.overrun() {
            Err(DecodeError::WrongNumberOfElements)
        } else if self@.len() == N {
            Ok(self@)
        } else if self.length_known() {
            Err(DecodeError::EndedEarly)
        } else {
            Err(DecodeError::WrongNumberOfElements)
        }
    }

    /// Starts reading a sequence. One that announces another length than `N`
    /// is refused here, before any of its elements is read; one that
    /// announces `N`, or no length at all, is read.
    pub fn begin(announced: Option<usize>) -> (r: Result<Self, DecodeError>)
        ensures
            (match r {
                Ok(decoder) => {
                    &&& !UnorderedNTuple::<T, N>::rules_out(announced)
                    &&& decoder@ == Seq::<T>::empty()
                    &&& decoder.length_known() == (announced is Some)
                    &&& !decoder.overrun()
                },
                Err(error) => UnorderedNTuple::<T, N>::rules_out(announced) && error
                    == DecodeError::WrongNumberOfElements,
            }),
    {
        match UnorderedNTuple::<T, N>::check_length(announced) {
            Ok(()) => Ok(
                Decoder { elements: Vec::new(), announced: announced.is_some(), went_on: false },
            ),
            Err(error) => Err(error),
        }
    }

    /// Whether another element is to be asked for.
    pub fn wants_more(&self) -> (more: bool)
        ensures
            more == self.expects_more(),
    {
        !self.went_on && (self.elements.len() < N || (self.elements.len() == N
            && !self.announced))
    }

    /// How many elements have been kept.
    pub fn count(&self) -> (kept: usize)
        ensures
            kept == self@.len(),
    {
        self.elements.len()
    }

    /// Takes the next element of the sequence. One of the first `N` is
    /// kept; one that comes after them only shows that the sequence is too
    /// long.
    pub fn accept(&mut self, element: T)
        requires
            old(self).expects_more(),
        ensures
            final(self).length_known() == old(self).length_known(),
            old(self)@.len() < N ==> final(self)@ == old(self)@.push(element),
            old(self)@.len() < N ==> !final(self).overrun(),
            old(self)@.len() >= N ==> final(self)@ == old(self)@ && final(self).overrun(),
    {
        if self.elements.len() < N {
            self.elements.push(element);
        } else {
            self.went_on = true;
        }
    }

    /// Ends the reading: the tuple of the elements that came, in their
    /// order, if there were exactly `N` of them.
    pub fn finish(self) -> (r: Result<UnorderedNTuple<T, N>, DecodeError>)
        ensures
            (match r {
                Ok(tuple) => self.outcome() == Ok::<Seq<T>, DecodeError>(tuple@),
                Err(error) => self.outcome() == Err::<Seq<T>, DecodeError>(error),
            }),
    {
        if self.went_on {
            Err(DecodeError::WrongNumberOfElements)
        } else {
            let known = self.announced;
            match vec_into_array(self.elements) {
                Ok(array) => Ok(UnorderedNTuple(array)),
                Err(_) => {
                    if known {
                        Err(DecodeError::EndedEarly)
                    } else {
                        Err(DecodeError::WrongNumberOfElements)
                    }
                },
            }
        }
    }
}

/// Decoding what a tuple encodes to succeeds and gives back the same
/// elements in the same storage order.
pub proof fn lemma_encoding_round_trip<T, const N: usize>(tuple: UnorderedNTuple<T, N>)
    ensures
        UnorderedNTuple::<T, N>::decoding(tuple.encoding()) == Ok::<Seq<T>, DecodeError>(tuple@),
{
}

/// A whole sequence whose length is not `N` is refused with
/// [`DecodeError::WrongNumberOfElements`], whatever it holds.
pub proof fn lemma_wrong_length_refused<T, const N: usize>(elements: Seq<T>)
    requires
        elements.len() != N,
    ensures
        UnorderedNTuple::<T, N>::decoding(elements) == Err::<Seq<T>, DecodeError>(
            DecodeError::WrongNumberOfElements,
        ),
{
}

} // verus!
