//! How the variant machine stands to the position at which it reads.

use vstd::prelude::*;
use crate::extractor::machine::{MachineState};
use crate::extractor::position::{is_bare_whitespace, is_part, moved};
use crate::extractor::arbitrary_value_machine::ArbitraryValueView;
use crate::extractor::named_variant_machine::NamedVariantView;
use crate::extractor::variant_machine::{State, VariantView};

verus! {

impl VariantView {
    /// The machine is in the state of `here`, for the same bytes `by`
    /// positions further on.
    #[verifier::opaque]
    pub open spec fn moved(self, here: VariantView, by: int) -> bool {
        &&& self.state == here.state
        &&& self.state != State::Idle ==> moved(self.start_pos, here.start_pos, by)
        &&& self.arbitrary_value_machine.moved(here.arbitrary_value_machine, by)
        &&& self.named_variant_machine.moved(here.named_variant_machine, by)
    }

    /// What the machine does with a byte depends on the bytes around it
    /// and not on where they stand in the input.
    pub proof fn lemma_step_moved(
        self,
        here: VariantView,
        input: Seq<u8>,
        part: Seq<u8>,
        by: usize,
        pos: usize,
    )
        requires
            is_part(input, part, by as int),
            self.moved(here, by as int),
            here.inv(pos as int),
            pos + 1 < part.len(),
        ensures
            self.step(input, (pos + by) as usize).0.moved(here.step(part, pos).0, by as int),
            self.step(input, (pos + by) as usize).1.moved(here.step(part, pos).1, by as int),
    {
        reveal(VariantView::step);
        reveal(VariantView::moved);
        assert(part[pos as int] == input[by + pos]);
        assert(part[pos + 1] == input[by + pos + 1]);
        self.arbitrary_value_machine.lemma_step_moved(here.arbitrary_value_machine, input, part, by, pos);
        self.named_variant_machine.lemma_step_moved(here.named_variant_machine, input, part, by, pos);
    }

    /// Whether the machine completes a variant at a byte does not depend on
    /// what follows the byte.
    pub proof fn lemma_done_moved(
        self,
        here: VariantView,
        input: Seq<u8>,
        part: Seq<u8>,
        by: usize,
        pos: usize,
    )
        requires
            is_part(input, part, by as int),
            self.moved(here, by as int),
            here.inv(pos as int),
            pos < part.len(),
        ensures
            self.step(input, (pos + by) as usize).1 is Done <==> here.step(part, pos).1 is Done,
            self.step(input, (pos + by) as usize).1 is Done ==> self.step(
                input,
                (pos + by) as usize,
            ).1.moved(here.step(part, pos).1, by as int),
    {
        reveal(VariantView::step);
        reveal(VariantView::moved);
        assert(part[pos as int] == input[by + pos]);
        self.named_variant_machine.lemma_done_moved(here.named_variant_machine, input, part, by, pos);
    }
}

impl VariantView {
    /// A machine that has read nothing is in the same state wherever it
    /// stands.
    pub proof fn lemma_fresh_moved(by: int)
        ensures
            VariantView::fresh().moved(VariantView::fresh(), by),
    {
        reveal(VariantView::moved);
    }
}

impl VariantView {
    /// The machine is as it was constructed whenever it is idle, and the
    /// bytes that it passes over unread are escaped bytes or no
    /// whitespace.
    #[verifier::opaque]
    pub open spec fn steady(self, input: Seq<u8>, pos: int) -> bool {
        &&& self.state == State::Idle ==> self == VariantView::fresh()
        &&& self.arbitrary_value_machine.steady(input, pos)
        &&& self.named_variant_machine.steady(input, pos)
    }

    /// Feeding a position keeps the machine steady.
    pub proof fn lemma_step_steady(self, input: Seq<u8>, pos: usize)
        requires
            self.steady(input, pos as int),
            pos <= input.len() <= usize::MAX,
        ensures
            self.step(input, pos).0.steady(input, pos + 1),
    {
        reveal(VariantView::step);
        reveal(VariantView::steady);
        self.arbitrary_value_machine.lemma_steady_later(input, pos as int);
        self.named_variant_machine.lemma_steady_later(input, pos as int);
        ArbitraryValueView::lemma_fresh_steady(input, pos + 1);
        NamedVariantView::lemma_fresh_steady(input, pos + 1);
        self.arbitrary_value_machine.lemma_step_steady(input, pos);
        self.named_variant_machine.lemma_step_steady(input, pos);
    }

    /// A whitespace that no backslash precedes puts the machine back into
    /// the state it was constructed in.
    pub proof fn lemma_whitespace_resets(self, input: Seq<u8>, pos: usize)
        requires
            self.steady(input, pos as int),
            is_bare_whitespace(input, pos as int),
        ensures
            self.step(input, pos) == (VariantView::fresh(), MachineState::Idle),
    {
        reveal(VariantView::step);
        reveal(VariantView::steady);
        self.arbitrary_value_machine.lemma_whitespace_resets(input, pos);
        self.named_variant_machine.lemma_whitespace_resets(input, pos);
    }
}

impl VariantView {
    /// A machine that has read nothing is steady.
    pub proof fn lemma_fresh_steady(input: Seq<u8>, pos: int)
        ensures
            VariantView::fresh().steady(input, pos),
    {
        reveal(VariantView::steady);
        ArbitraryValueView::lemma_fresh_steady(input, pos);
        NamedVariantView::lemma_fresh_steady(input, pos);
    }
}

impl VariantView {
    /// A machine that is steady stays so while it is not fed.
    pub proof fn lemma_steady_later(self, input: Seq<u8>, pos: int)
        requires
            self.steady(input, pos),
        ensures
            self.steady(input, pos + 1),
    {
        reveal(VariantView::steady);
        self.arbitrary_value_machine.lemma_steady_later(input, pos);
        self.named_variant_machine.lemma_steady_later(input, pos);
    }
}

impl VariantView {
    /// A machine that reports nothing to go on with is as it was
    /// constructed.
    pub proof fn lemma_idle_is_fresh(self, input: Seq<u8>, pos: usize)
        ensures
            !(self.step(input, pos).1 is Parsing) ==> self.step(input, pos).0
                == VariantView::fresh(),
    {
        reveal(VariantView::step);
    }
}

impl VariantView {
    /// The machine has read nothing of what stands before position
    /// `from`.
    #[verifier::opaque]
    pub open spec fn since(self, from: int) -> bool {
        &&& self.state != State::Idle ==> self.start_pos >= from
        &&& self.arbitrary_value_machine.since(from)
        &&& self.named_variant_machine.since(from)
    }

    /// A machine that has read nothing has read nothing of what stands
    /// before any position.
    pub proof fn lemma_fresh_since(from: int)
        ensures
            VariantView::fresh().since(from),
    {
        reveal(VariantView::since);
        ArbitraryValueView::lemma_fresh_since(from);
        NamedVariantView::lemma_fresh_since(from);
    }

    /// A machine that is fed positions from `from` on reports spans that
    /// begin there or later.
    pub proof fn lemma_step_since(self, input: Seq<u8>, pos: usize, from: int)
        requires
            self.since(from),
            from <= pos,
        ensures
            self.step(input, pos).0.since(from),
            self.step(input, pos).1 matches MachineState::Done(span) ==> span.start >= from,
    {
        reveal(VariantView::step);
        reveal(VariantView::since);
        ArbitraryValueView::lemma_fresh_since(from);
        NamedVariantView::lemma_fresh_since(from);
        self.arbitrary_value_machine.lemma_step_since(input, pos, from);
        self.named_variant_machine.lemma_step_since(input, pos, from);
    }
}

} // verus!
