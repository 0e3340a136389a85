//! A stack of the closing brackets that are still expected.

use vstd::prelude::*;
use crate::extractor::bytes::{closer_of, is_open_bracket};

verus! {

/// The closing brackets that are still expected, innermost last.
#[derive(Debug)]
pub struct BracketStack {
    closers: Vec<u8>,
}

impl View for BracketStack {
    type V = Seq<u8>;

    closed spec fn view(&self) -> Seq<u8> {
        self.closers@
    }
}

impl Default for BracketStack {
    fn default() -> (stack: Self)
        ensures
            stack@ == Seq::<u8>::empty(),
    {
        BracketStack { closers: Vec::new() }
    }
}

impl BracketStack {
    /// What `is_empty` computes.
    pub open spec fn spec_is_empty(&self) -> bool {
        self@.len() == 0
    }

    /// Whether no bracket is expected.
    #[verifier::when_used_as_spec(spec_is_empty)]
    pub fn is_empty(&self) -> (yes: bool)
        ensures
            yes == (self@.len() == 0),
    {
        self.closers.len() == 0
    }

    /// Expects the bracket that closes the opening bracket `bracket`.
    pub fn push(&mut self, bracket: u8)
        requires
            is_open_bracket(bracket),
        ensures
            final(self)@ == old(self)@.push(closer_of(bracket)),
    {
        self.closers.push(closer_of(bracket));
    }

    /// Takes the innermost expected bracket off the stack and says whether
    /// it is `bracket`. An empty stack stays empty, and the answer is no.
    pub fn pop(&mut self, bracket: u8) -> (balanced: bool)
        ensures
            old(self)@.len() == 0 ==> !balanced && final(self)@ == old(self)@,
            old(self)@.len() > 0 ==> final(self)@ == old(self)@.drop_last() && balanced == (
            old(self)@.last() == bracket),
    {
        match self.closers.pop() {
            Some(expected) => expected == bracket,
            None => false,
        }
    }

    /// Forgets all expected brackets.
    pub fn reset(&mut self)
        ensures
            final(self)@ == Seq::<u8>::empty(),
    {
        self.closers.clear();
    }
}

} // verus!
