//! How the utility machine stands to the position at which it reads.

use vstd::prelude::*;
use crate::extractor::machine::{MachineState};
use crate::extractor::position::{is_bare_whitespace, is_part, moved};
use crate::extractor::arbitrary_property_machine::ArbitraryPropertyView;
use crate::extractor::modifier_machine::ModifierView;
use crate::extractor::named_utility_machine::NamedUtilityView;
use crate::extractor::utility_machine::{State, UtilityView};

verus! {

impl UtilityView {
    /// The machine is in the state of `here`, for the same bytes `by`
    /// positions further on.
    #[verifier::opaque]
    pub open spec fn moved(self, here: UtilityView, by: int) -> bool {
        &&& self.state == here.state
        &&& self.state != State::Idle ==> moved(self.start_pos, here.start_pos, by)
        &&& self.arbitrary_property_machine.moved(here.arbitrary_property_machine, by)
        &&& self.named_utility_machine.moved(here.named_utility_machine, by)
        &&& self.modifier_machine.moved(here.modifier_machine, by)
    }

    /// What the machine does with a byte depends on the bytes around it
    /// and not on where they stand in the input.
    pub proof fn lemma_step_moved(
        self,
        here: UtilityView,
        input: Seq<u8>,
        part: Seq<u8>,
        by: usize,
        pos: usize,
    )
        requires
            is_part(input, part, by as int),
            self.moved(here, by as int),
            here.inv(pos as int),
            pos + 1 < part.len(),
        ensures
            self.step(input, (pos + by) as usize).0.moved(here.step(part, pos).0, by as int),
            self.step(input, (pos + by) as usize).1.moved(here.step(part, pos).1, by as int),
    {
        reveal(UtilityView::step);
        reveal(UtilityView::moved);
        assert(part[pos as int] == input[by + pos]);
        assert(part[pos + 1] == input[by + pos + 1]);
        match here.state {
            State::Idle => {
                self.arbitrary_property_machine.lemma_step_moved(
                    here.arbitrary_property_machine,
                    input,
                    part,
                    by,
                    pos,
                );
                self.named_utility_machine.lemma_step_moved(
                    here.named_utility_machine,
                    input,
                    part,
                    by,
                    pos,
                );
            },
            State::ParsingNamedUtility => {
                self.named_utility_machine.lemma_step_moved(
                    here.named_utility_machine,
                    input,
                    part,
                    by,
                    pos,
                );
            },
            State::ParsingArbitraryProperty => {
                self.arbitrary_property_machine.lemma_step_moved(
                    here.arbitrary_property_machine,
                    input,
                    part,
                    by,
                    pos,
                );
            },
            State::ParsingModifier => {
                self.modifier_machine.lemma_step_moved(
                    here.modifier_machine,
                    input,
                    part,
                    by,
                    pos,
                );
            },
            State::ParsingImportant => {
                assert(part[here.start_pos as int] == input[by + here.start_pos]);
            },
        }
    }

    /// A utility that the machine completes at a byte, it also completes
    /// where the input ends behind that byte.
    pub proof fn lemma_done_moved(
        self,
        here: UtilityView,
        input: Seq<u8>,
        part: Seq<u8>,
        by: usize,
        pos: usize,
    )
        requires
            is_part(input, part, by as int),
            self.moved(here, by as int),
            here.inv(pos as int),
            pos + 1 == part.len(),
        ensures
            self.step(input, (pos + by) as usize).1 is Done ==> self.step(
                input,
                (pos + by) as usize,
            ).1.moved(here.step(part, pos).1, by as int),
    {
        reveal(UtilityView::step);
        reveal(UtilityView::moved);
        assert(part[pos as int] == input[by + pos]);
        match here.state {
            State::Idle => {
                self.named_utility_machine.lemma_done_moved(
                    here.named_utility_machine,
                    input,
                    part,
                    by,
                    pos,
                );
                self.named_utility_machine.lemma_done_at(input, (pos + by) as usize);
            },
            State::ParsingNamedUtility => {
                self.named_utility_machine.lemma_done_moved(
                    here.named_utility_machine,
                    input,
                    part,
                    by,
                    pos,
                );
            },
            State::ParsingArbitraryProperty => {
                self.arbitrary_property_machine.lemma_done_moved(
                    here.arbitrary_property_machine,
                    input,
                    part,
                    by,
                    pos,
                );
            },
            State::ParsingModifier => {
                self.modifier_machine.lemma_done_moved(
                    here.modifier_machine,
                    input,
                    part,
                    by,
                    pos,
                );
            },
            State::ParsingImportant => {
                assert(part[here.start_pos as int] == input[by + here.start_pos]);
            },
        }
    }
}

impl UtilityView {
    /// A machine that has read nothing is in the same state wherever it
    /// stands.
    pub proof fn lemma_fresh_moved(by: int)
        ensures
            UtilityView::fresh().moved(UtilityView::fresh(), by),
    {
        reveal(UtilityView::moved);
    }
}

impl UtilityView {
    /// The machine is as it was constructed whenever it is idle, and the
    /// bytes that it passes over unread are escaped bytes or no
    /// whitespace.
    #[verifier::opaque]
    pub open spec fn steady(self, input: Seq<u8>, pos: int) -> bool {
        &&& self.state == State::Idle ==> self == UtilityView::fresh()
        &&& self.arbitrary_property_machine.steady(input, pos)
        &&& self.named_utility_machine.steady(input, pos)
        &&& self.modifier_machine.steady(input, pos)
    }

    /// Feeding a position keeps the machine steady.
    pub proof fn lemma_step_steady(self, input: Seq<u8>, pos: usize)
        requires
            self.steady(input, pos as int),
            pos <= input.len() <= usize::MAX,
        ensures
            self.step(input, pos).0.steady(input, pos + 1),
    {
        reveal(UtilityView::step);
        reveal(UtilityView::steady);
        self.arbitrary_property_machine.lemma_steady_later(input, pos as int);
        self.named_utility_machine.lemma_steady_later(input, pos as int);
        self.modifier_machine.lemma_steady_later(input, pos as int);
        ArbitraryPropertyView::lemma_fresh_steady(input, pos + 1);
        NamedUtilityView::lemma_fresh_steady(input, pos + 1);
        ModifierView::lemma_fresh_steady(input, pos + 1);
        self.arbitrary_property_machine.lemma_step_steady(input, pos);
        self.named_utility_machine.lemma_step_steady(input, pos);
        self.modifier_machine.lemma_step_steady(input, pos);
    }

    /// A whitespace that no backslash precedes puts the machine back into
    /// the state it was constructed in.
    pub proof fn lemma_whitespace_resets(self, input: Seq<u8>, pos: usize)
        requires
            self.steady(input, pos as int),
            is_bare_whitespace(input, pos as int),
        ensures
            self.step(input, pos) == (UtilityView::fresh(), MachineState::Idle),
    {
        reveal(UtilityView::step);
        reveal(UtilityView::steady);
        self.arbitrary_property_machine.lemma_whitespace_resets(input, pos);
        self.named_utility_machine.lemma_whitespace_resets(input, pos);
        self.modifier_machine.lemma_whitespace_resets(input, pos);
    }
}

impl UtilityView {
    /// A machine that has read nothing is steady.
    pub proof fn lemma_fresh_steady(input: Seq<u8>, pos: int)
        ensures
            UtilityView::fresh().steady(input, pos),
    {
        reveal(UtilityView::steady);
        ArbitraryPropertyView::lemma_fresh_steady(input, pos);
        NamedUtilityView::lemma_fresh_steady(input, pos);
        ModifierView::lemma_fresh_steady(input, pos);
    }
}

impl UtilityView {
    /// A machine that is steady stays so while it is not fed.
    pub proof fn lemma_steady_later(self, input: Seq<u8>, pos: int)
        requires
            self.steady(input, pos),
        ensures
            self.steady(input, pos + 1),
    {
        reveal(UtilityView::steady);
        self.arbitrary_property_machine.lemma_steady_later(input, pos);
        self.named_utility_machine.lemma_steady_later(input, pos);
        self.modifier_machine.lemma_steady_later(input, pos);
    }
}

impl UtilityView {
    /// The machine has read nothing of what stands before position
    /// `from`.
    #[verifier::opaque]
    pub open spec fn since(self, from: int) -> bool {
        &&& self.state != State::Idle ==> self.start_pos >= from
        &&& self.arbitrary_property_machine.since(from)
        &&& self.named_utility_machine.since(from)
        &&& self.modifier_machine.since(from)
    }

    /// A machine that has read nothing has read nothing of what stands
    /// before any position.
    pub proof fn lemma_fresh_since(from: int)
        ensures
            UtilityView::fresh().since(from),
    {
        reveal(UtilityView::since);
        ArbitraryPropertyView::lemma_fresh_since(from);
        NamedUtilityView::lemma_fresh_since(from);
        ModifierView::lemma_fresh_since(from);
    }

    /// A machine that is fed positions from `from` on reports spans that
    /// begin there or later.
    pub proof fn lemma_step_since(self, input: Seq<u8>, pos: usize, from: int)
        requires
            self.since(from),
            from <= pos,
        ensures
            self.step(input, pos).0.since(from),
            self.step(input, pos).1 matches MachineState::Done(span) ==> span.start >= from,
    {
        reveal(UtilityView::step);
        reveal(UtilityView::since);
        ArbitraryPropertyView::lemma_fresh_since(from);
        NamedUtilityView::lemma_fresh_since(from);
        ModifierView::lemma_fresh_since(from);
        self.arbitrary_property_machine.lemma_step_since(input, pos, from);
        self.named_utility_machine.lemma_step_since(input, pos, from);
        self.modifier_machine.lemma_step_since(input, pos, from);
    }
}

} // verus!
