//! Spans and the result of feeding one position to a state machine.

use vstd::prelude::*;
use vstd::slice::slice_subrange;
use crate::cursor::lemma_len_in_range;

verus! {

/// An inclusive range `[start, end]` of byte offsets.
#[derive(Debug, Clone, Copy)]
pub struct Span {
    /// Inclusive start position of the span.
    pub start: usize,
    /// Inclusive end position of the span.
    pub end: usize,
}

impl Span {
    /// The span is not empty and lies within a buffer of `len` bytes.
    pub open spec fn fits(&self, len: nat) -> bool {
        self.start <= self.end < len
    }

    /// The bytes of `input` that the span covers.
    pub open spec fn of(&self, input: Seq<u8>) -> Seq<u8> {
        input.subrange(self.start as int, self.end + 1)
    }

    /// The span from `start` to `end`, both included.
    pub fn new(start: usize, end: usize) -> (span: Self)
        ensures
            span.start == start,
            span.end == end,
    {
        Span { start, end }
    }

    /// The bytes of `input` from `start` to `end`, both included.
    pub fn slice<'a>(&self, input: &'a [u8]) -> (bytes: &'a [u8])
        requires
            self.fits(input@.len()),
        ensures
            bytes@ == self.of(input@),
    {
        proof {
            lemma_len_in_range(input);
        }
        slice_subrange(input, self.start, self.end + 1)
    }
}

/// What a machine reports after it was fed one position.
#[derive(Debug, Clone, Copy)]
pub enum MachineState {
    /// Machine is not doing anything at the moment.
    Idle,
    /// Machine is in the middle of a token.
    Parsing,
    /// Machine completed a token that ends at the current position.
    Done(Span),
}

impl MachineState {
    /// The report as a sequence of at most one span.
    pub open spec fn found(self) -> Seq<Span> {
        match self {
            MachineState::Done(span) => seq![span],
            _ => Seq::empty(),
        }
    }
}

} // verus!
