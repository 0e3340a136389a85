//! How the candidate machine stands to the position at which it reads.

use vstd::prelude::*;
use crate::cursor::byte_at;
use crate::extractor::bytes::{is_whitespace, COLON};
use crate::extractor::machine::{MachineState, Span};
use crate::extractor::position::{is_bare_whitespace, is_part, moved, moved_if_set};
use crate::extractor::candidate_machine::{CandidateView, State};
use crate::extractor::named_utility_machine::NamedUtilityView;
use crate::extractor::utility_machine::UtilityView;
use crate::extractor::variant_machine::VariantView;

verus! {

impl CandidateView {
    /// The machine is in the state of `here`, for the same bytes `by`
    /// positions further on.
    pub open spec fn moved(self, here: CandidateView, by: int) -> bool {
        &&& self.state == here.state
        &&& self.state == State::Parsing ==> moved(self.start_pos, here.start_pos, by)
        &&& moved_if_set(self.last_variant_end_pos, here.last_variant_end_pos, by)
        &&& self.utility_machine.moved(here.utility_machine, by)
        &&& self.variant_machine.moved(here.variant_machine, by)
    }

    /// `lemma_step_moved` for a machine that is outside of a candidate.
    proof fn lemma_step_idle_moved(
        self,
        here: CandidateView,
        input: Seq<u8>,
        part: Seq<u8>,
        by: usize,
        pos: usize,
    )
        requires
            is_part(input, part, by as int),
            self.moved(here, by as int),
            here.inv(pos as int),
            pos + 1 < part.len(),
        ensures
            self.step_idle(input, (pos + by) as usize).0.moved(
                here.step_idle(part, pos).0,
                by as int,
            ),
            self.step_idle(input, (pos + by) as usize).1.moved(
                here.step_idle(part, pos).1,
                by as int,
            ),
    {
        assert(part[pos as int] == input[by + pos]);
        assert(part[pos + 1] == input[by + pos + 1]);
        self.utility_machine.lemma_step_moved(here.utility_machine, input, part, by, pos);
        self.variant_machine.lemma_step_moved(here.variant_machine, input, part, by, pos);
        VariantView::lemma_fresh_moved(by as int);
        UtilityView::lemma_fresh_moved(by as int);
    }

    /// `lemma_step_moved` for a machine that is inside of a candidate.
    proof fn lemma_step_parsing_moved(
        self,
        here: CandidateView,
        input: Seq<u8>,
        part: Seq<u8>,
        by: usize,
        pos: usize,
    )
        requires
            is_part(input, part, by as int),
            self.moved(here, by as int),
            here.inv(pos as int),
            self.state == State::Parsing,
            pos + 1 < part.len(),
        ensures
            ({
                let there = self.step_parsing(input, (pos + by) as usize);
                let alone = here.step_parsing(part, pos);
                ||| there.0.moved(alone.0, by as int) && there.1.moved(alone.1, by as int)
                ||| pos + 2 == part.len() && there.0 == CandidateView::fresh() && there.1 is Done
            }),
    {
        assert(part[pos as int] == input[by + pos]);
        assert(part[pos + 1] == input[by + pos + 1]);
        if pos + 2 < part.len() {
            assert(part[pos + 2] == input[by + pos + 2]);
        }
        self.utility_machine.lemma_step_moved(here.utility_machine, input, part, by, pos);
        self.variant_machine.lemma_step_moved(here.variant_machine, input, part, by, pos);
        let (variant_there, variant) = self.variant_machine.step(input, (pos + by) as usize);
        let (utility_there, utility) = self.utility_machine.step(input, (pos + by) as usize);
        let (variant_here, variant_alone) = here.variant_machine.step(part, pos);
        let (utility_here, utility_alone) = here.utility_machine.step(part, pos);
        assert(variant.moved(variant_alone, by as int));
        assert(utility.moved(utility_alone, by as int));
        VariantView::lemma_fresh_moved(by as int);
        UtilityView::lemma_fresh_moved(by as int);
    }

    /// What the machine does with a byte depends on the bytes around it
    /// and not on where they stand in the input. The byte before the last
    /// one of an input is the exception: there a key of an object is only
    /// found if a whitespace follows the input.
    pub proof fn lemma_step_moved(
        self,
        here: CandidateView,
        input: Seq<u8>,
        part: Seq<u8>,
        by: usize,
        pos: usize,
    )
        requires
            is_part(input, part, by as int),
            self.moved(here, by as int),
            here.inv(pos as int),
            pos + 1 < part.len(),
        ensures
            ({
                let there = self.step(input, (pos + by) as usize);
                let alone = here.step(part, pos);
                ||| there.0.moved(alone.0, by as int) && there.1.moved(alone.1, by as int)
                ||| pos + 2 == part.len() && there.0 == CandidateView::fresh() && there.1 is Done
            }),
    {
        reveal(CandidateView::step);
        assert(part[pos as int] == input[by + pos]);
        match here.state {
            State::Idle => {
                self.lemma_step_idle_moved(here, input, part, by, pos);
            },
            State::Parsing => {
                self.lemma_step_parsing_moved(here, input, part, by, pos);
            },
            State::ResumeAtBoundary => {
                VariantView::lemma_fresh_moved(by as int);
                UtilityView::lemma_fresh_moved(by as int);
            },
        }
    }

    /// The machine reports the key of an object at `pos`, and the utility
    /// that it has read begins behind the first byte of the key, as in
    /// `a1bc: x`, where the utility is `bc`.
    pub open spec fn key_begins_late(self, input: Seq<u8>, pos: usize) -> bool {
        &&& self.state == State::Parsing
        &&& byte_at(input, pos + 1) == COLON
        &&& is_whitespace(byte_at(input, pos + 2))
        &&& self.utility_machine.step(input, pos).1 matches MachineState::Done(span)
            && span.start != self.start_pos
    }

    /// A candidate that the machine completes at a byte, it also completes
    /// where the input ends behind that byte. The key of an object is the
    /// exception: where the input ends, only its utility is reported.
    pub proof fn lemma_done_moved(
        self,
        here: CandidateView,
        input: Seq<u8>,
        part: Seq<u8>,
        by: usize,
        pos: usize,
    )
        requires
            is_part(input, part, by as int),
            self.moved(here, by as int),
            here.inv(pos as int),
            pos + 1 == part.len(),
        ensures
            self.step(input, (pos + by) as usize).1 is Done && !self.key_begins_late(
                input,
                (pos + by) as usize,
            ) ==> self.step(input, (pos + by) as usize).1.moved(
                here.step(part, pos).1,
                by as int,
            ),
            self.step(input, (pos + by) as usize).1 is Done && self.key_begins_late(
                input,
                (pos + by) as usize,
            ) ==> (here.step(part, pos).1 matches MachineState::Done(span) && span.start
                != here.start_pos),
    {
        reveal(CandidateView::step);
        assert(part[pos as int] == input[by + pos]);
        self.utility_machine.lemma_done_moved(here.utility_machine, input, part, by, pos);
        self.variant_machine.lemma_done_moved(here.variant_machine, input, part, by, pos);
        here.utility_machine.lemma_step(part, pos);
    }

    /// A machine that has read nothing yet can only complete a candidate
    /// of a single byte.
    pub proof fn lemma_fresh_done(input: Seq<u8>, pos: usize)
        ensures
            CandidateView::fresh().step(input, pos).1 matches MachineState::Done(span)
                ==> span.start == pos,
    {
        reveal(CandidateView::step);
        reveal(UtilityView::step);
        reveal(NamedUtilityView::step);
    }

    /// The machine after the `n` positions of `input` from `from` on were
    /// fed to it.
    pub open spec fn fed(input: Seq<u8>, from: nat, n: nat) -> CandidateView
        decreases n,
    {
        if n == 0 {
            CandidateView::fresh()
        } else {
            CandidateView::fed(input, from, (n - 1) as nat).step(
                input,
                (from + n - 1) as usize,
            ).0
        }
    }

    /// Feeding positions in order keeps the machine consistent.
    pub proof fn lemma_fed(input: Seq<u8>, from: nat, n: nat)
        requires
            from + n <= input.len() <= usize::MAX,
        ensures
            CandidateView::fed(input, from, n).inv((from + n) as int),
        decreases n,
    {
        if n > 0 {
            CandidateView::lemma_fed(input, from, (n - 1) as nat);
            CandidateView::fed(input, from, (n - 1) as nat).lemma_step(
                input,
                (from + n - 1) as usize,
            );
        }
    }

    /// A machine that is fed a piece of the input is, up to the last byte
    /// of the piece, in the state of a machine that is fed the piece
    /// alone.
    pub proof fn lemma_fed_moved(input: Seq<u8>, part: Seq<u8>, by: usize, n: nat)
        requires
            is_part(input, part, by as int),
            n < part.len(),
        ensures
            ({
                let there = CandidateView::fed(input, by as nat, n);
                ||| there.moved(CandidateView::fed(part, 0, n), by as int)
                ||| 0 < n && n + 1 == part.len() && there == CandidateView::fresh()
            }),
        decreases n,
    {
        VariantView::lemma_fresh_moved(by as int);
        UtilityView::lemma_fresh_moved(by as int);
        if n > 0 {
            let before = (n - 1) as nat;
            CandidateView::lemma_fed_moved(input, part, by, before);
            CandidateView::lemma_fed(part, 0, before);
            CandidateView::fed(input, by as nat, before).lemma_step_moved(
                CandidateView::fed(part, 0, before),
                input,
                part,
                by,
                before as usize,
            );
        }
    }

    /// A candidate that the machine completes, having read nothing before
    /// the first byte of the candidate, it also completes when it is fed
    /// the bytes of the candidate alone, unless the candidate is the key of
    /// an object whose utility begins late.
    pub proof fn lemma_candidate_is_reported_alone(input: Seq<u8>, from: usize, to: usize)
        requires
            from <= to < input.len() <= usize::MAX,
            CandidateView::fed(input, from as nat, (to - from) as nat).step(input, to).1
                == MachineState::Done(Span { start: from, end: to }),
            !CandidateView::fed(input, from as nat, (to - from) as nat).key_begins_late(
                input,
                to,
            ),
        ensures
            ({
                let part = input.subrange(from as int, to + 1);
                CandidateView::fed(part, 0, (to - from) as nat).step(part, (to - from) as usize).1
                    == MachineState::Done(Span { start: 0, end: (to - from) as usize })
            }),
    {
        let part = input.subrange(from as int, to + 1);
        let n = (to - from) as nat;
        assert(is_part(input, part, from as int));
        CandidateView::lemma_fed_moved(input, part, from, n);
        CandidateView::lemma_fed(part, 0, n);
        let there = CandidateView::fed(input, from as nat, n);
        let alone = CandidateView::fed(part, 0, n);
        if there.moved(alone, from as int) {
            there.lemma_done_moved(alone, input, part, from, n as usize);
        } else {
            CandidateView::lemma_fresh_done(input, to);
        }
    }

    /// The key of an object whose utility begins late is not reported
    /// whole by a machine that is fed the bytes of the key alone: it
    /// reports the utility.
    pub proof fn lemma_late_key_is_not_reported_alone(input: Seq<u8>, from: usize, to: usize)
        requires
            from <= to < input.len() <= usize::MAX,
            CandidateView::fed(input, from as nat, (to - from) as nat).step(input, to).1
                == MachineState::Done(Span { start: from, end: to }),
            CandidateView::fed(input, from as nat, (to - from) as nat).key_begins_late(
                input,
                to,
            ),
        ensures
            ({
                let part = input.subrange(from as int, to + 1);
                CandidateView::fed(part, 0, (to - from) as nat).step(part, (to - from) as usize).1
                    != MachineState::Done(Span { start: 0, end: (to - from) as usize })
            }),
    {
        let part = input.subrange(from as int, to + 1);
        let n = (to - from) as nat;
        assert(is_part(input, part, from as int));
        CandidateView::lemma_fed_moved(input, part, from, n);
        CandidateView::lemma_fed(part, 0, n);
        CandidateView::lemma_fed(input, from as nat, n);
        let there = CandidateView::fed(input, from as nat, n);
        let alone = CandidateView::fed(part, 0, n);
        reveal(CandidateView::step);
        there.utility_machine.lemma_step(input, to);
        if there.moved(alone, from as int) {
            there.lemma_done_moved(alone, input, part, from, n as usize);
        } else {
            CandidateView::lemma_fresh_done(input, to);
        }
    }
}

impl CandidateView {
    /// Outside of a candidate all but the utility machine is as it was
    /// constructed, and the bytes that the machines pass over unread are
    /// escaped bytes or no whitespace.
    #[verifier::opaque]
    pub open spec fn steady(self, input: Seq<u8>, pos: int) -> bool {
        &&& self.utility_machine.steady(input, pos)
        &&& self.variant_machine.steady(input, pos)
        &&& self.state == State::Idle ==> self == (CandidateView {
            utility_machine: self.utility_machine,
            ..CandidateView::fresh()
        })
    }

    /// A machine that has read nothing is steady.
    pub proof fn lemma_fresh_steady(input: Seq<u8>, pos: int)
        ensures
            CandidateView::fresh().steady(input, pos),
    {
        reveal(CandidateView::steady);
        UtilityView::lemma_fresh_steady(input, pos);
        VariantView::lemma_fresh_steady(input, pos);
    }

    /// Feeding a position keeps the machine steady.
    pub proof fn lemma_step_steady(self, input: Seq<u8>, pos: usize)
        requires
            self.steady(input, pos as int),
            pos <= input.len() <= usize::MAX,
        ensures
            self.step(input, pos).0.steady(input, pos + 1),
    {
        reveal(CandidateView::step);
        reveal(CandidateView::steady);
        UtilityView::lemma_fresh_steady(input, pos + 1);
        VariantView::lemma_fresh_steady(input, pos + 1);
        self.utility_machine.lemma_steady_later(input, pos as int);
        self.variant_machine.lemma_steady_later(input, pos as int);
        self.utility_machine.lemma_step_steady(input, pos);
        self.variant_machine.lemma_step_steady(input, pos);
        self.variant_machine.lemma_idle_is_fresh(input, pos);
    }

    /// A whitespace that no backslash precedes puts the machine back into
    /// the state it was constructed in.
    pub proof fn lemma_whitespace_resets(self, input: Seq<u8>, pos: usize)
        requires
            self.steady(input, pos as int),
            is_bare_whitespace(input, pos as int),
        ensures
            self.step(input, pos) == (CandidateView::fresh(), MachineState::Idle),
    {
        reveal(CandidateView::step);
        reveal(CandidateView::steady);
        self.utility_machine.lemma_whitespace_resets(input, pos);
        self.variant_machine.lemma_whitespace_resets(input, pos);
    }
}

impl CandidateView {
    /// The machine has read nothing of what stands before position
    /// `from`.
    #[verifier::opaque]
    pub open spec fn since(self, from: int) -> bool {
        &&& self.state == State::Parsing ==> self.start_pos >= from
        &&& self.last_variant_end_pos matches Some(end_pos) ==> end_pos >= from
        &&& self.utility_machine.since(from)
        &&& self.variant_machine.since(from)
    }

    /// A machine that has read nothing has read nothing of what stands
    /// before any position.
    pub proof fn lemma_fresh_since(from: int)
        ensures
            CandidateView::fresh().since(from),
    {
        reveal(CandidateView::since);
        UtilityView::lemma_fresh_since(from);
        VariantView::lemma_fresh_since(from);
    }

    /// A machine that is fed positions from `from` on reports spans that
    /// begin there or later.
    pub proof fn lemma_step_since(self, input: Seq<u8>, pos: usize, from: int)
        requires
            self.since(from),
            from <= pos,
        ensures
            self.step(input, pos).0.since(from),
            self.step(input, pos).1 matches MachineState::Done(span) ==> span.start >= from,
    {
        reveal(CandidateView::step);
        reveal(CandidateView::since);
        UtilityView::lemma_fresh_since(from);
        VariantView::lemma_fresh_since(from);
        self.utility_machine.lemma_step_since(input, pos, from);
        self.variant_machine.lemma_step_since(input, pos, from);
    }
}

} // verus!
