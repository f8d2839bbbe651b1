//! Sequences of symbols.

use vstd::prelude::*;
use vstd::std_specs::convert::FromSpecImpl;
use crate::text::{chars_of, join_chars};

verus! {

/// A symbol of a sequence: cheap to copy, with a decidable equality.
pub trait Symbol: Copy {
    /// Whether `self` and `other` are the same symbol.
    fn same(&self, other: &Self) -> (r: bool)
        ensures
            r == (*self == *other),
    ;
}

impl Symbol for char {
    fn same(&self, other: &char) -> (r: bool) {
        *self == *other
    }
}

impl Symbol for u8 {
    fn same(&self, other: &u8) -> (r: bool) {
        *self == *other
    }
}

/// A sequence represented as a list of `T`; index 0 is its first symbol.
#[derive(Debug)]
pub struct Sequence<T = char>(pub Vec<T>);

impl<T> View for Sequence<T> {
    type V = Seq<T>;

    open spec fn view(&self) -> Seq<T> {
        self.0@
    }
}

impl<T> Default for Sequence<T> {
    /// The empty sequence.
    fn default() -> (s: Self)
        ensures
            s@ == Seq::<T>::empty(),
    {
        Sequence(Vec::new())
    }
}

impl<'a> From<&'a str> for Sequence<char> {
    /// The sequence of the characters of `source`.
    fn from(source: &'a str) -> (s: Self)
        ensures
            s@ == source@,
    {
        Sequence(chars_of(source))
    }
}

/// No function of the mathematical model builds the vector inside a
/// sequence, so `from` states what it returns in its own contract, over the
/// view, and makes no use of `from_spec`.
impl<'a> FromSpecImpl<&'a str> for Sequence<char> {
    open spec fn obeys_from_spec() -> bool {
        false
    }

    open spec fn from_spec(source: &'a str) -> Self {
        arbitrary()
    }
}

impl Sequence<char> {
    /// The symbols of the sequence as text, one after the other.
    pub fn to_text(&self) -> (text: String)
        ensures
            text@ == self@,
    {
        join_chars(&self.0)
    }
}

impl<T> Sequence<T> {
    /// Number of symbols in the sequence.
    pub fn len(&self) -> (n: usize)
        ensures
            n == self@.len(),
    {
        self.0.len()
    }
}

} // verus!
