//! How the CSS variable machine stands to the position at which it reads.

use vstd::prelude::*;
use crate::extractor::machine::{MachineState};
use crate::extractor::position::{is_bare_whitespace, is_part, moved, moved_if_set, skips_fairly};
use crate::extractor::css_variable_machine::{CssVariableMachine, State};

verus! {

impl CssVariableMachine {
    /// The machine is in the state of `here`, for the same bytes `by`
    /// positions further on.
    pub open spec fn moved(self, here: CssVariableMachine, by: int) -> bool {
        &&& self.state == here.state
        &&& self.state == State::Parsing ==> moved(self.start_pos, here.start_pos, by)
        &&& moved_if_set(self.skip_until_pos, here.skip_until_pos, by)
    }

    /// What the machine does with a byte depends on the bytes around it
    /// and not on where they stand in the input.
    pub proof fn lemma_step_moved(
        self,
        here: CssVariableMachine,
        input: Seq<u8>,
        part: Seq<u8>,
        by: usize,
        pos: usize,
    )
        requires
            is_part(input, part, by as int),
            self.moved(here, by as int),
            here.inv(pos as int),
            pos + 1 < part.len(),
        ensures
            self.step(input, (pos + by) as usize).0.moved(here.step(part, pos).0, by as int),
            self.step(input, (pos + by) as usize).1.moved(here.step(part, pos).1, by as int),
    {
        reveal(CssVariableMachine::step);
        assert(part[pos as int] == input[by + pos]);
        assert(part[pos + 1] == input[by + pos + 1]);
    }
}

impl CssVariableMachine {
    /// The machine is as it was constructed whenever it is idle, and the
    /// bytes that it passes over unread are escaped bytes or no
    /// whitespace.
    #[verifier::opaque]
    pub open spec fn steady(self, input: Seq<u8>, pos: int) -> bool {
        &&& self.state == State::Idle ==> self == CssVariableMachine::fresh()
        &&& skips_fairly(self.skip_until_pos, input, pos)
    }

    /// Feeding a position keeps the machine steady.
    pub proof fn lemma_step_steady(self, input: Seq<u8>, pos: usize)
        requires
            self.steady(input, pos as int),
            pos <= input.len() <= usize::MAX,
        ensures
            self.step(input, pos).0.steady(input, pos + 1),
    {
        reveal(CssVariableMachine::step);
        reveal(CssVariableMachine::steady);
    }

    /// A whitespace that no backslash precedes puts the machine back into
    /// the state it was constructed in.
    pub proof fn lemma_whitespace_resets(self, input: Seq<u8>, pos: usize)
        requires
            self.steady(input, pos as int),
            is_bare_whitespace(input, pos as int),
        ensures
            self.step(input, pos) == (CssVariableMachine::fresh(), MachineState::Idle),
    {
        reveal(CssVariableMachine::step);
        reveal(CssVariableMachine::steady);
    }
}

impl CssVariableMachine {
    /// A machine that has read nothing is steady.
    pub proof fn lemma_fresh_steady(input: Seq<u8>, pos: int)
        ensures
            CssVariableMachine::fresh().steady(input, pos),
    {
        reveal(CssVariableMachine::steady);
    }
}

impl CssVariableMachine {
    /// A machine that is steady stays so while it is not fed.
    pub proof fn lemma_steady_later(self, input: Seq<u8>, pos: int)
        requires
            self.steady(input, pos),
        ensures
            self.steady(input, pos + 1),
    {
        reveal(CssVariableMachine::steady);
    }
}

impl CssVariableMachine {
    /// The machine has read nothing of what stands before position
    /// `from`.
    #[verifier::opaque]
    pub open spec fn since(self, from: int) -> bool {
        &&& self.state == State::Parsing ==> self.start_pos >= from
    }

    /// A machine that has read nothing has read nothing of what stands
    /// before any position.
    pub proof fn lemma_fresh_since(from: int)
        ensures
            CssVariableMachine::fresh().since(from),
    {
        reveal(CssVariableMachine::since);
    }

    /// A machine that is fed positions from `from` on reports spans that
    /// begin there or later.
    pub proof fn lemma_step_since(self, input: Seq<u8>, pos: usize, from: int)
        requires
            self.since(from),
            from <= pos,
        ensures
            self.step(input, pos).0.since(from),
            self.step(input, pos).1 matches MachineState::Done(span) ==> span.start >= from,
    {
        reveal(CssVariableMachine::step);
        reveal(CssVariableMachine::since);
    }
}

} // verus!
