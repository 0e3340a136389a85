//! A utility that is read alone: what the candidate machine makes of the
//! bytes of a utility when nothing stands before or behind them.

use vstd::prelude::*;
use crate::cursor::byte_at;
use crate::extractor::bytes::{is_lower, AT, BANG, DASH, LESS_THAN, SLASH};
use crate::extractor::candidate_machine::{CandidateView, State};
use crate::extractor::machine::{MachineState, Span};
use crate::extractor::named_utility_machine::NamedUtilityView;
use crate::extractor::position::is_part;
use crate::extractor::utility_machine::State as UtilityState;
use crate::extractor::utility_machine::UtilityView;
use crate::extractor::variant_machine::VariantView;

verus! {

impl UtilityView {
    /// The machine after the `n` positions of `input` from `from` on were
    /// fed to it.
    pub open spec fn fed(input: Seq<u8>, from: nat, n: nat) -> UtilityView
        decreases n,
    {
        if n == 0 {
            UtilityView::fresh()
        } else {
            UtilityView::fed(input, from, (n - 1) as nat).step(input, (from + n - 1) as usize).0
        }
    }

    /// What the machine reports for the position behind the `n` positions
    /// of `input` from `from` on.
    pub open spec fn report(input: Seq<u8>, from: nat, n: nat) -> MachineState {
        UtilityView::fed(input, from, n).step(input, (from + n) as usize).1
    }

    /// Feeding positions in order keeps the machine consistent, and while
    /// it is idle it is as it was constructed.
    pub proof fn lemma_fed(input: Seq<u8>, from: nat, n: nat)
        requires
            from + n <= input.len() <= usize::MAX,
        ensures
            UtilityView::fed(input, from, n).inv((from + n) as int),
            UtilityView::fed(input, from, n).state == UtilityState::Idle ==> UtilityView::fed(
                input,
                from,
                n,
            ) == UtilityView::fresh(),
        decreases n,
    {
        reveal(UtilityView::step);
        if n > 0 {
            UtilityView::lemma_fed(input, from, (n - 1) as nat);
            UtilityView::fed(input, from, (n - 1) as nat).lemma_step(
                input,
                (from + n - 1) as usize,
            );
        }
    }

    /// A machine that was idle behind `k` positions has read nothing of
    /// what stands before.
    proof fn lemma_fed_since(input: Seq<u8>, k: nat, n: nat)
        requires
            k <= n <= input.len() <= usize::MAX,
            UtilityView::fed(input, 0, k).state == UtilityState::Idle,
        ensures
            UtilityView::fed(input, 0, n).since(k as int),
        decreases n,
    {
        if n == k {
            UtilityView::lemma_fed(input, 0, k);
            UtilityView::lemma_fresh_since(k as int);
        } else {
            UtilityView::lemma_fed_since(input, k, (n - 1) as nat);
            UtilityView::fed(input, 0, (n - 1) as nat).lemma_step_since(
                input,
                (n - 1) as usize,
                k as int,
            );
        }
    }

    /// A machine that reports a utility from the first position on has not
    /// been idle in between.
    proof fn lemma_busy(input: Seq<u8>, n: nat, k: nat)
        requires
            1 <= k <= n < input.len() <= usize::MAX,
            UtilityView::report(input, 0, n) == MachineState::Done(
                Span { start: 0, end: n as usize },
            ),
        ensures
            UtilityView::fed(input, 0, k).state != UtilityState::Idle,
    {
        if UtilityView::fed(input, 0, k).state == UtilityState::Idle {
            UtilityView::lemma_fed_since(input, k, n);
            UtilityView::fed(input, 0, n).lemma_step_since(input, n as usize, k as int);
        }
    }

    /// While a machine reads a utility from the first position on, it
    /// reports that it is parsing; for the first position it may report
    /// nothing at all.
    pub proof fn lemma_parsing(input: Seq<u8>, n: nat, k: nat)
        requires
            k < n < input.len() <= usize::MAX,
            UtilityView::report(input, 0, n) == MachineState::Done(
                Span { start: 0, end: n as usize },
            ),
        ensures
            UtilityView::fed(input, 0, k + 1).state != UtilityState::Idle,
            !(UtilityView::report(input, 0, k) is Done),
            k >= 1 ==> UtilityView::report(input, 0, k) is Parsing,
    {
        reveal(UtilityView::step);
        UtilityView::lemma_busy(input, n, k + 1);
        UtilityView::lemma_fed(input, 0, k);
        UtilityView::fed(input, 0, k).lemma_step(input, k as usize);
        if k >= 1 {
            UtilityView::lemma_busy(input, n, k);
        }
    }

    /// A machine that is fed a piece of the input is, up to the last byte
    /// of the piece, in the state of a machine that is fed the piece
    /// alone.
    pub proof fn lemma_fed_moved(input: Seq<u8>, part: Seq<u8>, by: usize, n: nat)
        requires
            is_part(input, part, by as int),
            n < part.len(),
        ensures
            UtilityView::fed(input, by as nat, n).moved(UtilityView::fed(part, 0, n), by as int),
        decreases n,
    {
        if n == 0 {
            UtilityView::lemma_fresh_moved(by as int);
        } else {
            let before = (n - 1) as nat;
            UtilityView::lemma_fed_moved(input, part, by, before);
            UtilityView::lemma_fed(part, 0, before);
            UtilityView::fed(input, by as nat, before).lemma_step_moved(
                UtilityView::fed(part, 0, before),
                input,
                part,
                by,
                before as usize,
            );
        }
    }

    /// A utility that the machine completes, fed from the first byte of
    /// the utility on, it also completes when it is fed the bytes of the
    /// utility alone.
    pub proof fn lemma_utility_is_reported_alone(input: Seq<u8>, from: usize, to: usize)
        requires
            from <= to < input.len() <= usize::MAX,
            UtilityView::report(input, from as nat, (to - from) as nat) == MachineState::Done(
                Span { start: from, end: to },
            ),
        ensures
            UtilityView::report(input.subrange(from as int, to + 1), 0, (to - from) as nat)
                == MachineState::Done(Span { start: 0, end: (to - from) as usize }),
    {
        let part = input.subrange(from as int, to + 1);
        let n = (to - from) as nat;
        assert(is_part(input, part, from as int));
        UtilityView::lemma_fed_moved(input, part, from, n);
        UtilityView::lemma_fed(part, 0, n);
        UtilityView::fed(input, from as nat, n).lemma_done_moved(
            UtilityView::fed(part, 0, n),
            input,
            part,
            from,
            n as usize,
        );
        UtilityView::fed(part, 0, n).lemma_step(part, n as usize);
    }

    /// Where a machine that has read nothing begins to read or reports, a
    /// candidate can begin; and if it begins to read and reports nothing,
    /// it stands at a `!` before a name.
    pub proof fn lemma_begins(input: Seq<u8>, pos: usize)
        ensures
            ({
                let (machine, state) = UtilityView::fresh().step(input, pos);
                let curr = byte_at(input, pos as int);
                let next = byte_at(input, pos + 1);
                &&& machine.state != UtilityState::Idle || state is Done ==> curr != LESS_THAN
                    && curr != SLASH && !(curr == DASH && next == DASH)
                &&& machine.state != UtilityState::Idle && state is Idle ==> curr == BANG && (
                is_lower(next) || next == AT)
            }),
    {
        reveal(UtilityView::step);
        reveal(NamedUtilityView::step);
    }
}

impl UtilityView {
    /// A machine that has read nothing and is idle behind a position is
    /// still as it was constructed.
    pub proof fn lemma_idle_is_fresh(input: Seq<u8>, pos: usize)
        ensures
            UtilityView::fresh().step(input, pos).0.state == UtilityState::Idle
                ==> UtilityView::fresh().step(input, pos).0 == UtilityView::fresh(),
    {
        reveal(UtilityView::step);
    }

    /// A machine that is in the middle of a utility and reports nothing to
    /// go on with is as it was constructed.
    pub proof fn lemma_idle_report(self, input: Seq<u8>, pos: usize)
        ensures
            self.state != UtilityState::Idle && self.step(input, pos).1 is Idle ==> self.step(
                input,
                pos,
            ).0 == UtilityView::fresh(),
    {
        reveal(UtilityView::step);
    }
}

impl VariantView {
    /// The machine after the `n` positions of `input` from `from` on were
    /// fed to it.
    pub open spec fn fed(input: Seq<u8>, from: nat, n: nat) -> VariantView
        decreases n,
    {
        if n == 0 {
            VariantView::fresh()
        } else {
            VariantView::fed(input, from, (n - 1) as nat).step(input, (from + n - 1) as usize).0
        }
    }

    /// What the machine reports for the position behind the `n` positions
    /// of `input` from `from` on.
    pub open spec fn report(input: Seq<u8>, from: nat, n: nat) -> MachineState {
        VariantView::fed(input, from, n).step(input, (from + n) as usize).1
    }
}

/// Fed the bytes alone, the variant machine completes a variant in them,
/// as it does with `a:` in `[color:red]/(--x,(a:b))`.
pub open spec fn variant_completes_inside(bytes: Seq<u8>) -> bool {
    exists|k: nat| k < bytes.len() && #[trigger] VariantView::report(bytes, 0, k) is Done
}

impl CandidateView {
    /// While a candidate machine reads the bytes of a utility alone, and
    /// the variant machine completes nothing in them, its two machines
    /// read on undisturbed.
    pub open spec fn reads_utility(self, bytes: Seq<u8>, k: nat) -> bool {
        &&& self.utility_machine == UtilityView::fed(bytes, 0, k)
        &&& self.variant_machine == VariantView::fed(bytes, 0, k)
        &&& self.last_variant_end_pos is None
        &&& self.state == State::Idle || self.state == State::Parsing
        &&& self.state == State::Idle ==> k == 0 || (k == 1 && bytes[0] == BANG && (is_lower(
            bytes[1],
        ) || bytes[1] == AT))
    }

    /// `reads_utility` holds up to the last byte of a utility.
    proof fn lemma_reads_utility(bytes: Seq<u8>, k: nat)
        requires
            0 < bytes.len() <= usize::MAX,
            k < bytes.len(),
            UtilityView::report(bytes, 0, (bytes.len() - 1) as nat) == MachineState::Done(
                Span { start: 0, end: (bytes.len() - 1) as usize },
            ),
            !variant_completes_inside(bytes),
        ensures
            CandidateView::fed(bytes, 0, k).reads_utility(bytes, k),
        decreases k,
    {
        if k > 0 {
            let before = (k - 1) as nat;
            let last = (bytes.len() - 1) as nat;
            CandidateView::lemma_reads_utility(bytes, before);
            let machine = CandidateView::fed(bytes, 0, before);
            reveal(CandidateView::step);
            UtilityView::lemma_parsing(bytes, last, before);
            assert(!(VariantView::report(bytes, 0, before) is Done));
            if before == 0 {
                UtilityView::lemma_begins(bytes, 0);
            }
        }
    }

    /// The bytes of a utility, in which the variant machine completes
    /// nothing, are reported whole by a candidate machine that is fed them
    /// alone.
    pub proof fn lemma_utility_is_a_candidate(bytes: Seq<u8>)
        requires
            0 < bytes.len() <= usize::MAX,
            UtilityView::report(bytes, 0, (bytes.len() - 1) as nat) == MachineState::Done(
                Span { start: 0, end: (bytes.len() - 1) as usize },
            ),
            !variant_completes_inside(bytes),
        ensures
            CandidateView::fed(bytes, 0, (bytes.len() - 1) as nat).step(
                bytes,
                (bytes.len() - 1) as usize,
            ).1 == MachineState::Done(Span { start: 0, end: (bytes.len() - 1) as usize }),
    {
        let last = (bytes.len() - 1) as nat;
        CandidateView::lemma_reads_utility(bytes, last);
        reveal(CandidateView::step);
        assert(!(VariantView::report(bytes, 0, last) is Done));
        if last == 0 {
            UtilityView::lemma_begins(bytes, 0);
        }
    }
}

impl UtilityView {
    /// A machine that is not idle is in the state of a machine that has
    /// read nothing before the start of its utility: whatever the machine
    /// that feeds it was in the middle of, it reads the utility on its
    /// own.
    #[verifier::opaque]
    pub open spec fn reads_alone(self, input: Seq<u8>, pos: int) -> bool {
        &&& self.state == UtilityState::Idle ==> self == UtilityView::fresh()
        &&& self.state != UtilityState::Idle ==> self.start_pos < pos && self == UtilityView::fed(
            input,
            self.start_pos as nat,
            (pos - self.start_pos) as nat,
        )
    }

    /// A machine that has read nothing reads on its own.
    pub proof fn lemma_fresh_reads_alone(input: Seq<u8>, pos: int)
        ensures
            UtilityView::fresh().reads_alone(input, pos),
    {
        reveal(UtilityView::reads_alone);
    }

    /// A machine that goes on with a utility keeps the start of the
    /// utility, and a utility that it reports begins there.
    proof fn lemma_keeps_start(self, input: Seq<u8>, pos: usize)
        requires
            self.state != UtilityState::Idle,
        ensures
            self.step(input, pos).0.state != UtilityState::Idle ==> self.step(
                input,
                pos,
            ).0.start_pos == self.start_pos,
            self.step(input, pos).1 matches MachineState::Done(span) ==> span.start
                == self.start_pos && span.end == pos,
    {
        reveal(UtilityView::step);
    }

    /// A machine that has read nothing begins a utility where it is fed,
    /// and a utility that it reports at once is a single byte.
    proof fn lemma_sets_start(input: Seq<u8>, pos: usize)
        ensures
            UtilityView::fresh().step(input, pos).0.state != UtilityState::Idle
                ==> UtilityView::fresh().step(input, pos).0.start_pos == pos,
            UtilityView::fresh().step(input, pos).1 matches MachineState::Done(span)
                ==> span.start == pos && span.end == pos,
    {
        reveal(UtilityView::step);
        reveal(NamedUtilityView::step);
    }

    /// Feeding a position keeps the machine reading on its own, and what it
    /// reports is what a machine reports that is first fed the start of the
    /// span.
    pub proof fn lemma_step_reads_alone(self, input: Seq<u8>, pos: usize)
        requires
            self.reads_alone(input, pos as int),
            self.inv(pos as int),
            pos < input.len() <= usize::MAX,
        ensures
            self.step(input, pos).0.reads_alone(input, pos + 1),
            self.step(input, pos).1 matches MachineState::Done(span) ==> span.start <= pos
                && span.end == pos && UtilityView::report(
                input,
                span.start as nat,
                (pos - span.start) as nat,
            ) == MachineState::Done(span),
    {
        reveal(UtilityView::reads_alone);
        self.lemma_step(input, pos);
        let (machine, state) = self.step(input, pos);
        if self.state == UtilityState::Idle {
            UtilityView::lemma_sets_start(input, pos);
            UtilityView::lemma_idle_is_fresh(input, pos);
            assert(UtilityView::fed(input, pos as nat, 0) == UtilityView::fresh());
            assert(UtilityView::fed(input, pos as nat, 1) == machine);
        } else {
            self.lemma_keeps_start(input, pos);
            self.lemma_idle_report(input, pos);
            let start = self.start_pos as nat;
            assert(UtilityView::fed(input, start, (pos + 1 - start) as nat) == machine);
            if machine.state == UtilityState::Idle {
                assert(machine == UtilityView::fresh()) by {
                    reveal(UtilityView::step);
                }
            }
        }
    }
}

impl CandidateView {
    /// The utility machine of the candidate machine reads on its own.
    pub open spec fn reads_alone(self, input: Seq<u8>, pos: int) -> bool {
        &&& self.utility_machine.reads_alone(input, pos)
        &&& self.state == State::ResumeAtBoundary ==> self == CandidateView::resuming()
    }

    /// Feeding a position to a candidate machine keeps its utility machine
    /// reading on its own.
    pub proof fn lemma_step_reads_alone(self, input: Seq<u8>, pos: usize)
        requires
            self.reads_alone(input, pos as int),
            self.inv(pos as int),
            pos < input.len() <= usize::MAX,
        ensures
            self.step(input, pos).0.reads_alone(input, pos + 1),
    {
        reveal(CandidateView::step);
        UtilityView::lemma_fresh_reads_alone(input, pos + 1);
        self.utility_machine.lemma_step_reads_alone(input, pos);
    }
}

/// A `!` stands directly before position `pos`.
pub open spec fn is_behind_bang(input: Seq<u8>, pos: int) -> bool {
    pos >= 1 && byte_at(input, pos - 1) == BANG
}

impl CandidateView {
    /// What the machine has read of a candidate, it has read as a machine
    /// does that is first fed the first byte of the candidate, unless a
    /// `!` stands directly before the candidate: that the utility machine
    /// has read.
    pub open spec fn reads_from_start(self, input: Seq<u8>, pos: int) -> bool {
        match self.state {
            State::Idle => self == CandidateView::fresh() || (is_behind_bang(input, pos) && self
                == CandidateView::fed(input, (pos - 1) as nat, 1)),
            State::Parsing => self.start_pos < pos && (self == CandidateView::fed(
                input,
                self.start_pos as nat,
                (pos - self.start_pos) as nat,
            ) || is_behind_bang(input, self.start_pos as int)),
            State::ResumeAtBoundary => self == CandidateView::resuming(),
        }
    }

    /// `lemma_step_reads_from_start` for a machine that has read nothing.
    proof fn lemma_first_step_reads_from_start(input: Seq<u8>, pos: usize)
        requires
            pos < input.len() <= usize::MAX,
        ensures
            CandidateView::fresh().step(input, pos).0.reads_from_start(input, pos + 1),
            CandidateView::fresh().step(input, pos).0.state == State::Idle ==> {
                let machine = CandidateView::fresh().step(input, pos).0;
                &&& machine.variant_machine == VariantView::fresh()
                &&& machine.start_pos == 0
                &&& machine.last_variant_end_pos is None
                &&& machine.utility_machine == UtilityView::fresh()
                    || machine.utility_machine.state != UtilityState::Idle
            },
    {
        reveal(CandidateView::step);
        let machine = CandidateView::fresh().step(input, pos).0;
        VariantView::fresh().lemma_idle_is_fresh(input, pos);
        UtilityView::lemma_begins(input, pos);
        UtilityView::lemma_idle_is_fresh(input, pos);
        assert(CandidateView::fed(input, pos as nat, 0) == CandidateView::fresh());
        assert(CandidateView::fed(input, pos as nat, 1) == machine);
    }

    /// `lemma_step_reads_from_start` for a machine behind a `!`.
    proof fn lemma_second_step_reads_from_start(self, input: Seq<u8>, pos: usize)
        requires
            self.state == State::Idle,
            self != CandidateView::fresh(),
            self.reads_from_start(input, pos as int),
            1 <= pos < input.len() <= usize::MAX,
        ensures
            self.step(input, pos).0.reads_from_start(input, pos + 1),
    {
        assert(CandidateView::fed(input, (pos - 1) as nat, 0) == CandidateView::fresh());
        assert(self == CandidateView::fresh().step(input, (pos - 1) as usize).0);
        CandidateView::lemma_first_step_reads_from_start(input, (pos - 1) as usize);
        reveal(CandidateView::step);
        self.variant_machine.lemma_idle_is_fresh(input, pos);
        self.utility_machine.lemma_idle_report(input, pos);
    }

    /// Feeding a position keeps `reads_from_start`.
    pub proof fn lemma_step_reads_from_start(self, input: Seq<u8>, pos: usize)
        requires
            self.reads_from_start(input, pos as int),
            self.inv(pos as int),
            pos < input.len() <= usize::MAX,
        ensures
            self.step(input, pos).0.reads_from_start(input, pos + 1),
    {
        let machine = self.step(input, pos).0;
        if self == CandidateView::fresh() {
            CandidateView::lemma_first_step_reads_from_start(input, pos);
        } else if self.state == State::Idle {
            self.lemma_second_step_reads_from_start(input, pos);
        } else if self.state == State::Parsing {
            reveal(CandidateView::step);
            if machine.state == State::Parsing {
                let start = self.start_pos as nat;
                assert(machine.start_pos == self.start_pos);
                if self == CandidateView::fed(input, start, (pos - start) as nat) {
                    assert(CandidateView::fed(input, start, (pos + 1 - start) as nat) == machine);
                }
            }
        } else {
            reveal(CandidateView::step);
        }
    }

    /// Whatever the machine reports, its utility machine has reported, or
    /// it has read as a machine does that is first fed the first byte of
    /// the span, or a `!` stands directly before the span.
    pub proof fn lemma_report_kinds(self, input: Seq<u8>, pos: usize)
        requires
            self.reads_from_start(input, pos as int),
            self.inv(pos as int),
            pos < input.len() <= usize::MAX,
        ensures
            self.step(input, pos).1 matches MachineState::Done(span) ==> {
                ||| self.utility_machine.step(input, pos).1 == MachineState::Done(span)
                ||| span.start <= pos && CandidateView::fed(
                    input,
                    span.start as nat,
                    (pos - span.start) as nat,
                ).step(input, pos).1 == MachineState::Done(span)
                ||| is_behind_bang(input, span.start as int)
            },
    {
        reveal(CandidateView::step);
    }
}

} // verus!
