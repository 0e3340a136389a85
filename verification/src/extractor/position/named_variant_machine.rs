//! How the named variant machine stands to the position at which it reads.

use vstd::prelude::*;
use crate::extractor::machine::{MachineState};
use crate::extractor::position::{is_bare_whitespace, is_part, moved};
use crate::extractor::arbitrary_value_machine::ArbitraryValueView;
use crate::extractor::arbitrary_variable_machine::ArbitraryVariableView;
use crate::extractor::modifier_machine::ModifierView;
use crate::extractor::named_variant_machine::{NamedVariantView, State};

verus! {

impl NamedVariantView {
    /// The machine is in the state of `here`, for the same bytes `by`
    /// positions further on.
    pub open spec fn moved(self, here: NamedVariantView, by: int) -> bool {
        &&& self.state == here.state
        &&& self.state != State::Idle ==> moved(self.start_pos, here.start_pos, by)
        &&& self.arbitrary_variable_machine.moved(here.arbitrary_variable_machine, by)
        &&& self.arbitrary_value_machine.moved(here.arbitrary_value_machine, by)
        &&& self.modifier_machine.moved(here.modifier_machine, by)
    }

    /// What the machine does with a byte depends on the bytes around it
    /// and not on where they stand in the input.
    pub proof fn lemma_step_moved(
        self,
        here: NamedVariantView,
        input: Seq<u8>,
        part: Seq<u8>,
        by: usize,
        pos: usize,
    )
        requires
            is_part(input, part, by as int),
            self.moved(here, by as int),
            here.inv(pos as int),
            pos + 1 < part.len(),
        ensures
            self.step(input, (pos + by) as usize).0.moved(here.step(part, pos).0, by as int),
            self.step(input, (pos + by) as usize).1.moved(here.step(part, pos).1, by as int),
    {
        reveal(NamedVariantView::step);
        assert(part[pos as int] == input[by + pos]);
        assert(part[pos + 1] == input[by + pos + 1]);
        match here.state {
            State::ParsingArbitraryValue => {
                self.arbitrary_value_machine.lemma_step_moved(
                    here.arbitrary_value_machine,
                    input,
                    part,
                    by,
                    pos,
                );
            },
            State::ParsingArbitraryVariable => {
                self.arbitrary_variable_machine.lemma_step_moved(
                    here.arbitrary_variable_machine,
                    input,
                    part,
                    by,
                    pos,
                );
            },
            State::Parsing | State::ParsingModifier => {
                self.modifier_machine.lemma_step_moved(
                    here.modifier_machine,
                    input,
                    part,
                    by,
                    pos,
                );
            },
            _ => {},
        }
    }

    /// Whether the machine completes a variant at a byte does not depend on
    /// what follows the byte.
    pub proof fn lemma_done_moved(
        self,
        here: NamedVariantView,
        input: Seq<u8>,
        part: Seq<u8>,
        by: usize,
        pos: usize,
    )
        requires
            is_part(input, part, by as int),
            self.moved(here, by as int),
            here.inv(pos as int),
            pos < part.len(),
        ensures
            self.step(input, (pos + by) as usize).1 is Done <==> here.step(part, pos).1 is Done,
            self.step(input, (pos + by) as usize).1 is Done ==> self.step(
                input,
                (pos + by) as usize,
            ).1.moved(here.step(part, pos).1, by as int),
    {
        reveal(NamedVariantView::step);
        assert(part[pos as int] == input[by + pos]);
    }
}

impl NamedVariantView {
    /// The machine is as it was constructed whenever it is idle, and the
    /// bytes that it passes over unread are escaped bytes or no
    /// whitespace.
    #[verifier::opaque]
    pub open spec fn steady(self, input: Seq<u8>, pos: int) -> bool {
        &&& self.state == State::Idle ==> self == NamedVariantView::fresh()
        &&& self.arbitrary_variable_machine.steady(input, pos)
        &&& self.arbitrary_value_machine.steady(input, pos)
        &&& self.modifier_machine.steady(input, pos)
    }

    /// Feeding a position keeps the machine steady.
    pub proof fn lemma_step_steady(self, input: Seq<u8>, pos: usize)
        requires
            self.steady(input, pos as int),
            pos <= input.len() <= usize::MAX,
        ensures
            self.step(input, pos).0.steady(input, pos + 1),
    {
        reveal(NamedVariantView::step);
        reveal(NamedVariantView::steady);
        self.arbitrary_value_machine.lemma_steady_later(input, pos as int);
        self.arbitrary_variable_machine.lemma_steady_later(input, pos as int);
        self.modifier_machine.lemma_steady_later(input, pos as int);
        ArbitraryValueView::lemma_fresh_steady(input, pos + 1);
        ArbitraryVariableView::lemma_fresh_steady(input, pos + 1);
        ModifierView::lemma_fresh_steady(input, pos + 1);
        self.arbitrary_variable_machine.lemma_step_steady(input, pos);
        self.arbitrary_value_machine.lemma_step_steady(input, pos);
        self.modifier_machine.lemma_step_steady(input, pos);
    }

    /// A whitespace that no backslash precedes puts the machine back into
    /// the state it was constructed in.
    pub proof fn lemma_whitespace_resets(self, input: Seq<u8>, pos: usize)
        requires
            self.steady(input, pos as int),
            is_bare_whitespace(input, pos as int),
        ensures
            self.step(input, pos) == (NamedVariantView::fresh(), MachineState::Idle),
    {
        reveal(NamedVariantView::step);
        reveal(NamedVariantView::steady);
        self.arbitrary_variable_machine.lemma_whitespace_resets(input, pos);
        self.arbitrary_value_machine.lemma_whitespace_resets(input, pos);
        self.modifier_machine.lemma_whitespace_resets(input, pos);
    }
}

impl NamedVariantView {
    /// A machine that has read nothing is steady.
    pub proof fn lemma_fresh_steady(input: Seq<u8>, pos: int)
        ensures
            NamedVariantView::fresh().steady(input, pos),
    {
        reveal(NamedVariantView::steady);
        ArbitraryValueView::lemma_fresh_steady(input, pos);
        ArbitraryVariableView::lemma_fresh_steady(input, pos);
        ModifierView::lemma_fresh_steady(input, pos);
    }
}

impl NamedVariantView {
    /// A machine that is steady stays so while it is not fed.
    pub proof fn lemma_steady_later(self, input: Seq<u8>, pos: int)
        requires
            self.steady(input, pos),
        ensures
            self.steady(input, pos + 1),
    {
        reveal(NamedVariantView::steady);
        self.arbitrary_value_machine.lemma_steady_later(input, pos);
        self.arbitrary_variable_machine.lemma_steady_later(input, pos);
        self.modifier_machine.lemma_steady_later(input, pos);
    }
}

impl NamedVariantView {
    /// The machine has read nothing of what stands before position
    /// `from`.
    #[verifier::opaque]
    pub open spec fn since(self, from: int) -> bool {
        &&& self.state != State::Idle ==> self.start_pos >= from
        &&& self.arbitrary_value_machine.since(from)
        &&& self.arbitrary_variable_machine.since(from)
        &&& self.modifier_machine.since(from)
    }

    /// A machine that has read nothing has read nothing of what stands
    /// before any position.
    pub proof fn lemma_fresh_since(from: int)
        ensures
            NamedVariantView::fresh().since(from),
    {
        reveal(NamedVariantView::since);
        ArbitraryValueView::lemma_fresh_since(from);
        ArbitraryVariableView::lemma_fresh_since(from);
        ModifierView::lemma_fresh_since(from);
    }

    /// A machine that is fed positions from `from` on reports spans that
    /// begin there or later.
    pub proof fn lemma_step_since(self, input: Seq<u8>, pos: usize, from: int)
        requires
            self.since(from),
            from <= pos,
        ensures
            self.step(input, pos).0.since(from),
            self.step(input, pos).1 matches MachineState::Done(span) ==> span.start >= from,
    {
        reveal(NamedVariantView::step);
        reveal(NamedVariantView::since);
        ArbitraryValueView::lemma_fresh_since(from);
        ArbitraryVariableView::lemma_fresh_since(from);
        ModifierView::lemma_fresh_since(from);
        self.arbitrary_value_machine.lemma_step_since(input, pos, from);
        self.arbitrary_variable_machine.lemma_step_since(input, pos, from);
        self.modifier_machine.lemma_step_since(input, pos, from);
    }
}

} // verus!
