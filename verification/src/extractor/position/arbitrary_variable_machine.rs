//! How the arbitrary variable machine stands to the position at which it reads.

use vstd::prelude::*;
use crate::extractor::machine::{MachineState};
use crate::extractor::position::{is_bare_whitespace, is_part, moved, moved_if_set, skips_fairly};
use crate::extractor::arbitrary_variable_machine::{ArbitraryVariableView, State};
use crate::extractor::css_variable_machine::CssVariableMachine;
use crate::extractor::string_machine::StringMachine;

verus! {

impl ArbitraryVariableView {
    /// The machine is in the state of `here`, for the same bytes `by`
    /// positions further on.
    pub open spec fn moved(self, here: ArbitraryVariableView, by: int) -> bool {
        &&& self.state == here.state
        &&& self.state != State::Idle ==> moved(self.start_pos, here.start_pos, by)
        &&& self.bracket_stack == here.bracket_stack
        &&& moved_if_set(self.skip_until_pos, here.skip_until_pos, by)
        &&& self.string_machine.moved(here.string_machine, by)
        &&& self.css_variable_machine.moved(here.css_variable_machine, by)
    }

    /// What the machine does with a byte depends on the bytes around it
    /// and not on where they stand in the input.
    pub proof fn lemma_step_moved(
        self,
        here: ArbitraryVariableView,
        input: Seq<u8>,
        part: Seq<u8>,
        by: usize,
        pos: usize,
    )
        requires
            is_part(input, part, by as int),
            self.moved(here, by as int),
            here.inv(pos as int),
            pos + 1 < part.len(),
        ensures
            self.step(input, (pos + by) as usize).0.moved(here.step(part, pos).0, by as int),
            self.step(input, (pos + by) as usize).1.moved(here.step(part, pos).1, by as int),
    {
        reveal(ArbitraryVariableView::step);
        assert(part[pos as int] == input[by + pos]);
        assert(part[pos + 1] == input[by + pos + 1]);
        self.string_machine.lemma_step_moved(here.string_machine, input, part, by, pos);
        self.css_variable_machine.lemma_step_moved(
            here.css_variable_machine,
            input,
            part,
            by,
            pos,
        );
    }

    /// Whether the machine completes a variable at a byte does not depend
    /// on what follows the byte.
    pub proof fn lemma_done_moved(
        self,
        here: ArbitraryVariableView,
        input: Seq<u8>,
        part: Seq<u8>,
        by: usize,
        pos: usize,
    )
        requires
            is_part(input, part, by as int),
            self.moved(here, by as int),
            here.inv(pos as int),
            pos < part.len(),
        ensures
            self.step(input, (pos + by) as usize).1 is Done <==> here.step(part, pos).1 is Done,
            self.step(input, (pos + by) as usize).1 is Done ==> self.step(
                input,
                (pos + by) as usize,
            ).1.moved(here.step(part, pos).1, by as int),
    {
        reveal(ArbitraryVariableView::step);
        assert(part[pos as int] == input[by + pos]);
    }
}

impl ArbitraryVariableView {
    /// The machine is as it was constructed whenever it is idle, and the
    /// bytes that it passes over unread are escaped bytes or no
    /// whitespace.
    #[verifier::opaque]
    pub open spec fn steady(self, input: Seq<u8>, pos: int) -> bool {
        &&& self.state == State::Idle ==> self == ArbitraryVariableView::fresh()
        &&& skips_fairly(self.skip_until_pos, input, pos)
        &&& self.string_machine.steady(input, pos)
        &&& self.css_variable_machine.steady(input, pos)
    }

    /// Feeding a position keeps the machine steady.
    pub proof fn lemma_step_steady(self, input: Seq<u8>, pos: usize)
        requires
            self.steady(input, pos as int),
            pos <= input.len() <= usize::MAX,
        ensures
            self.step(input, pos).0.steady(input, pos + 1),
    {
        reveal(ArbitraryVariableView::step);
        reveal(ArbitraryVariableView::steady);
        self.string_machine.lemma_steady_later(input, pos as int);
        self.css_variable_machine.lemma_steady_later(input, pos as int);
        StringMachine::lemma_fresh_steady(input, pos + 1);
        CssVariableMachine::lemma_fresh_steady(input, pos + 1);
        self.string_machine.lemma_step_steady(input, pos);
        self.css_variable_machine.lemma_step_steady(input, pos);
    }

    /// A whitespace that no backslash precedes puts the machine back into
    /// the state it was constructed in.
    pub proof fn lemma_whitespace_resets(self, input: Seq<u8>, pos: usize)
        requires
            self.steady(input, pos as int),
            is_bare_whitespace(input, pos as int),
        ensures
            self.step(input, pos) == (ArbitraryVariableView::fresh(), MachineState::Idle),
    {
        reveal(ArbitraryVariableView::step);
        reveal(ArbitraryVariableView::steady);
        self.string_machine.lemma_whitespace_resets(input, pos);
        self.css_variable_machine.lemma_whitespace_resets(input, pos);
    }
}

impl ArbitraryVariableView {
    /// A machine that has read nothing is steady.
    pub proof fn lemma_fresh_steady(input: Seq<u8>, pos: int)
        ensures
            ArbitraryVariableView::fresh().steady(input, pos),
    {
        reveal(ArbitraryVariableView::steady);
        StringMachine::lemma_fresh_steady(input, pos);
        CssVariableMachine::lemma_fresh_steady(input, pos);
    }
}

impl ArbitraryVariableView {
    /// A machine that is steady stays so while it is not fed.
    pub proof fn lemma_steady_later(self, input: Seq<u8>, pos: int)
        requires
            self.steady(input, pos),
        ensures
            self.steady(input, pos + 1),
    {
        reveal(ArbitraryVariableView::steady);
        self.string_machine.lemma_steady_later(input, pos);
        self.css_variable_machine.lemma_steady_later(input, pos);
    }
}

impl ArbitraryVariableView {
    /// The machine has read nothing of what stands before position
    /// `from`.
    #[verifier::opaque]
    pub open spec fn since(self, from: int) -> bool {
        &&& self.state != State::Idle ==> self.start_pos >= from
        &&& self.string_machine.since(from)
        &&& self.css_variable_machine.since(from)
    }

    /// A machine that has read nothing has read nothing of what stands
    /// before any position.
    pub proof fn lemma_fresh_since(from: int)
        ensures
            ArbitraryVariableView::fresh().since(from),
    {
        reveal(ArbitraryVariableView::since);
        StringMachine::lemma_fresh_since(from);
        CssVariableMachine::lemma_fresh_since(from);
    }

    /// A machine that is fed positions from `from` on reports spans that
    /// begin there or later.
    pub proof fn lemma_step_since(self, input: Seq<u8>, pos: usize, from: int)
        requires
            self.since(from),
            from <= pos,
        ensures
            self.step(input, pos).0.since(from),
            self.step(input, pos).1 matches MachineState::Done(span) ==> span.start >= from,
    {
        reveal(ArbitraryVariableView::step);
        reveal(ArbitraryVariableView::since);
        StringMachine::lemma_fresh_since(from);
        CssVariableMachine::lemma_fresh_since(from);
        self.string_machine.lemma_step_since(input, pos, from);
        self.css_variable_machine.lemma_step_since(input, pos, from);
    }
}

} // verus!
