//! How the named utility machine stands to the position at which it reads.

use vstd::prelude::*;
use crate::cursor::byte_at;
use crate::extractor::bytes::{is_alnum, CLOSE_BRACKET, CLOSE_PAREN, UNDERSCORE};
use crate::extractor::machine::{MachineState};
use crate::extractor::position::{is_bare_whitespace, is_part, moved};
use crate::extractor::arbitrary_value_machine::ArbitraryValueView;
use crate::extractor::arbitrary_variable_machine::ArbitraryVariableView;
use crate::extractor::named_utility_machine::{NamedUtilityView, State};

verus! {

impl NamedUtilityView {
    /// The machine is in the state of `here`, for the same bytes `by`
    /// positions further on.
    pub open spec fn moved(self, here: NamedUtilityView, by: int) -> bool {
        &&& self.state == here.state
        &&& self.state != State::Idle ==> moved(self.start_pos, here.start_pos, by)
        &&& self.arbitrary_variable_machine.moved(here.arbitrary_variable_machine, by)
        &&& self.arbitrary_value_machine.moved(here.arbitrary_value_machine, by)
    }

    /// What the machine does with a byte depends on the bytes around it
    /// and not on where they stand in the input.
    pub proof fn lemma_step_moved(
        self,
        here: NamedUtilityView,
        input: Seq<u8>,
        part: Seq<u8>,
        by: usize,
        pos: usize,
    )
        requires
            is_part(input, part, by as int),
            self.moved(here, by as int),
            here.inv(pos as int),
            pos + 1 < part.len(),
        ensures
            self.step(input, (pos + by) as usize).0.moved(here.step(part, pos).0, by as int),
            self.step(input, (pos + by) as usize).1.moved(here.step(part, pos).1, by as int),
    {
        reveal(NamedUtilityView::step);
        assert(part[pos as int] == input[by + pos]);
        assert(part[pos + 1] == input[by + pos + 1]);
        if pos > 0 {
            assert(part[pos - 1] == input[by + pos - 1]);
        }
        self.arbitrary_variable_machine.lemma_step_moved(here.arbitrary_variable_machine, input, part, by, pos);
        self.arbitrary_value_machine.lemma_step_moved(here.arbitrary_value_machine, input, part, by, pos);
    }

    /// A utility that the machine completes at a byte, it also completes
    /// where the input ends behind that byte.
    pub proof fn lemma_done_moved(
        self,
        here: NamedUtilityView,
        input: Seq<u8>,
        part: Seq<u8>,
        by: usize,
        pos: usize,
    )
        requires
            is_part(input, part, by as int),
            self.moved(here, by as int),
            here.inv(pos as int),
            pos + 1 == part.len(),
        ensures
            self.step(input, (pos + by) as usize).1 is Done ==> self.step(
                input,
                (pos + by) as usize,
            ).1.moved(here.step(part, pos).1, by as int),
    {
        reveal(NamedUtilityView::step);
        assert(part[pos as int] == input[by + pos]);
        if pos > 0 {
            assert(part[pos - 1] == input[by + pos - 1]);
        }
        self.arbitrary_variable_machine.lemma_done_moved(here.arbitrary_variable_machine, input, part, by, pos);
        self.arbitrary_value_machine.lemma_done_moved(here.arbitrary_value_machine, input, part, by, pos);
    }
}

impl NamedUtilityView {
    /// A utility ends with a letter, a digit, `_`, `]` or `)`.
    pub proof fn lemma_done_at(self, input: Seq<u8>, pos: usize)
        ensures
            self.step(input, pos).1 is Done ==> {
                let last = byte_at(input, pos as int);
                is_alnum(last) || last == UNDERSCORE || last == CLOSE_BRACKET || last
                    == CLOSE_PAREN
            },
    {
        reveal(NamedUtilityView::step);
        reveal(ArbitraryValueView::step);
        reveal(ArbitraryVariableView::step);
    }
}

impl NamedUtilityView {
    /// The machine is as it was constructed whenever it is idle, and the
    /// bytes that it passes over unread are escaped bytes or no
    /// whitespace.
    #[verifier::opaque]
    pub open spec fn steady(self, input: Seq<u8>, pos: int) -> bool {
        &&& self.state == State::Idle ==> self == NamedUtilityView::fresh()
        &&& self.arbitrary_variable_machine.steady(input, pos)
        &&& self.arbitrary_value_machine.steady(input, pos)
    }

    /// Feeding a position keeps the machine steady.
    pub proof fn lemma_step_steady(self, input: Seq<u8>, pos: usize)
        requires
            self.steady(input, pos as int),
            pos <= input.len() <= usize::MAX,
        ensures
            self.step(input, pos).0.steady(input, pos + 1),
    {
        reveal(NamedUtilityView::step);
        reveal(NamedUtilityView::steady);
        self.arbitrary_value_machine.lemma_steady_later(input, pos as int);
        self.arbitrary_variable_machine.lemma_steady_later(input, pos as int);
        ArbitraryValueView::lemma_fresh_steady(input, pos + 1);
        ArbitraryVariableView::lemma_fresh_steady(input, pos + 1);
        self.arbitrary_variable_machine.lemma_step_steady(input, pos);
        self.arbitrary_value_machine.lemma_step_steady(input, pos);
    }

    /// A whitespace that no backslash precedes puts the machine back into
    /// the state it was constructed in.
    pub proof fn lemma_whitespace_resets(self, input: Seq<u8>, pos: usize)
        requires
            self.steady(input, pos as int),
            is_bare_whitespace(input, pos as int),
        ensures
            self.step(input, pos) == (NamedUtilityView::fresh(), MachineState::Idle),
    {
        reveal(NamedUtilityView::step);
        reveal(NamedUtilityView::steady);
        self.arbitrary_variable_machine.lemma_whitespace_resets(input, pos);
        self.arbitrary_value_machine.lemma_whitespace_resets(input, pos);
    }
}

impl NamedUtilityView {
    /// A machine that has read nothing is steady.
    pub proof fn lemma_fresh_steady(input: Seq<u8>, pos: int)
        ensures
            NamedUtilityView::fresh().steady(input, pos),
    {
        reveal(NamedUtilityView::steady);
        ArbitraryValueView::lemma_fresh_steady(input, pos);
        ArbitraryVariableView::lemma_fresh_steady(input, pos);
    }
}

impl NamedUtilityView {
    /// A machine that is steady stays so while it is not fed.
    pub proof fn lemma_steady_later(self, input: Seq<u8>, pos: int)
        requires
            self.steady(input, pos),
        ensures
            self.steady(input, pos + 1),
    {
        reveal(NamedUtilityView::steady);
        self.arbitrary_value_machine.lemma_steady_later(input, pos);
        self.arbitrary_variable_machine.lemma_steady_later(input, pos);
    }
}

impl NamedUtilityView {
    /// The machine has read nothing of what stands before position
    /// `from`.
    #[verifier::opaque]
    pub open spec fn since(self, from: int) -> bool {
        &&& self.state != State::Idle ==> self.start_pos >= from
        &&& self.arbitrary_value_machine.since(from)
        &&& self.arbitrary_variable_machine.since(from)
    }

    /// A machine that has read nothing has read nothing of what stands
    /// before any position.
    pub proof fn lemma_fresh_since(from: int)
        ensures
            NamedUtilityView::fresh().since(from),
    {
        reveal(NamedUtilityView::since);
        ArbitraryValueView::lemma_fresh_since(from);
        ArbitraryVariableView::lemma_fresh_since(from);
    }

    /// A machine that is fed positions from `from` on reports spans that
    /// begin there or later.
    pub proof fn lemma_step_since(self, input: Seq<u8>, pos: usize, from: int)
        requires
            self.since(from),
            from <= pos,
        ensures
            self.step(input, pos).0.since(from),
            self.step(input, pos).1 matches MachineState::Done(span) ==> span.start >= from,
    {
        reveal(NamedUtilityView::step);
        reveal(NamedUtilityView::since);
        ArbitraryValueView::lemma_fresh_since(from);
        ArbitraryVariableView::lemma_fresh_since(from);
        self.arbitrary_value_machine.lemma_step_since(input, pos, from);
        self.arbitrary_variable_machine.lemma_step_since(input, pos, from);
    }
}

} // verus!
