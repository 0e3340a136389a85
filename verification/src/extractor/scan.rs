//! What a scan of an input finds, position by position, and what holds of
//! all that is extracted.

use vstd::prelude::*;
use crate::cursor::byte_at;
use crate::extractor::bytes::{is_whitespace, OPEN_BRACKET};
use crate::extractor::candidate_machine::CandidateView;
use crate::extractor::cover::{
    covered, drop_covered, lemma_drop_covered, lemma_no_span_covers_another, strictly_covers,
};
use crate::extractor::css_variable_machine::{
    is_css_variable, lemma_css_variable_is_reported, CssVariableMachine,
};
use crate::extractor::machine::{MachineState, Span};
use crate::extractor::position::alone::{is_behind_bang, variant_completes_inside};
use crate::extractor::position::is_bare_whitespace;
use crate::extractor::utility_machine::UtilityView;
use crate::extractor::ExtractedView;

verus! {

/// The nested candidate machines after position `pos` was fed to each of
/// them, and the spans that they completed there, in the order of the
/// machines.
pub open spec fn feed_nested(machines: Seq<CandidateView>, input: Seq<u8>, pos: usize) -> (
    Seq<CandidateView>,
    Seq<Span>,
)
    decreases machines.len(),
{
    if machines.len() == 0 {
        (Seq::empty(), Seq::empty())
    } else {
        let (fed, spans) = feed_nested(machines.drop_last(), input, pos);
        let (machine, state) = machines.last().step(input, pos);
        (fed.push(machine), spans + state.found())
    }
}

/// The state of a scan: the machines of the extractor and the spans that
/// they have completed so far.
pub struct Scan {
    pub css_variable_machine: CssVariableMachine,
    pub candidate_machine: CandidateView,
    /// The machines that were started behind a `[`, oldest first.
    pub candidate_machines: Seq<CandidateView>,
    /// The spans of the CSS variables, in the order of their ends.
    pub variables: Seq<Span>,
    /// The spans of the candidates, covered ones included.
    pub candidates: Seq<Span>,
}

impl Scan {
    /// The scan before the first position.
    pub open spec fn start() -> Scan {
        Scan {
            css_variable_machine: CssVariableMachine::fresh(),
            candidate_machine: CandidateView::fresh(),
            candidate_machines: Seq::empty(),
            variables: Seq::empty(),
            candidates: Seq::empty(),
        }
    }

    /// The scan after position `pos` of `input`. Whitespace discards the
    /// nested machines; any other byte is fed to them, and a `[` starts a
    /// new one. Then the byte is fed to the outer candidate machine and to
    /// the CSS variable machine.
    pub open spec fn fed(self, input: Seq<u8>, pos: usize) -> Scan {
        let curr = byte_at(input, pos as int);
        let (nested, inner) = if is_whitespace(curr) {
            (Seq::empty(), Seq::empty())
        } else {
            let (fed, spans) = feed_nested(self.candidate_machines, input, pos);
            if curr == OPEN_BRACKET {
                (fed.push(CandidateView::fresh()), spans)
            } else {
                (fed, spans)
            }
        };
        let (candidate_machine, candidate) = self.candidate_machine.step(input, pos);
        let (css_variable_machine, variable) = self.css_variable_machine.step(input, pos);
        Scan {
            css_variable_machine,
            candidate_machine,
            candidate_machines: nested,
            variables: self.variables + variable.found(),
            candidates: self.candidates + inner + candidate.found(),
        }
    }

    /// The scan after the first `n` positions of `input`.
    pub open spec fn of(input: Seq<u8>, n: nat) -> Scan
        decreases n,
    {
        if n == 0 {
            Scan::start()
        } else {
            Scan::of(input, (n - 1) as nat).fed(input, (n - 1) as usize)
        }
    }

    /// Every machine of the scan is consistent with the positions before
    /// `pos`, and every span lies before `pos`. There are no more nested
    /// machines than bytes were read.
    pub open spec fn inv(self, pos: int) -> bool {
        &&& self.candidate_machines.len() <= pos
        &&& self.css_variable_machine.inv(pos)
        &&& self.candidate_machine.inv(pos)
        &&& forall|j: int|
            0 <= j < self.candidate_machines.len() ==> (#[trigger] self.candidate_machines[j]).inv(
                pos,
            )
        &&& forall|j: int|
            0 <= j < self.variables.len() ==> (#[trigger] self.variables[j]).fits(pos as nat)
        &&& forall|j: int|
            0 <= j < self.candidates.len() ==> (#[trigger] self.candidates[j]).fits(pos as nat)
    }
}

/// The bytes of `input` under each of `spans`, as candidates.
pub open spec fn candidates_of(spans: Seq<Span>, input: Seq<u8>) -> Seq<ExtractedView> {
    Seq::new(spans.len(), |i: int| ExtractedView::Candidate(spans[i].of(input)))
}

/// The bytes of `input` under each of `spans`, as CSS variables.
pub open spec fn variables_of(spans: Seq<Span>, input: Seq<u8>) -> Seq<ExtractedView> {
    Seq::new(spans.len(), |i: int| ExtractedView::CssVariable(spans[i].of(input)))
}

/// What is extracted from `input`: the CSS variables in the order in which
/// they end, then the candidates that no other candidate covers, from left
/// to right.
pub open spec fn extraction(input: Seq<u8>) -> Seq<ExtractedView> {
    variables_of(variable_spans(input), input) + candidates_of(candidate_spans(input), input)
}

/// Feeding a position to the nested machines keeps their number and their
/// consistency, and the spans that they complete end at that position.
pub proof fn lemma_feed_nested(machines: Seq<CandidateView>, input: Seq<u8>, pos: usize)
    requires
        pos <= input.len() <= usize::MAX,
        forall|j: int| 0 <= j < machines.len() ==> (#[trigger] machines[j]).inv(pos as int),
    ensures
        feed_nested(machines, input, pos).0.len() == machines.len(),
        forall|j: int|
            0 <= j < machines.len() ==> (#[trigger] feed_nested(machines, input, pos).0[j]).inv(
                pos + 1,
            ),
        forall|j: int|
            0 <= j < feed_nested(machines, input, pos).1.len() ==> (#[trigger] feed_nested(
                machines,
                input,
                pos,
            ).1[j]).fits((pos + 1) as nat),
        feed_nested(machines, input, pos).1.len() > 0 ==> pos < input.len(),
    decreases machines.len(),
{
    if machines.len() > 0 {
        lemma_feed_nested(machines.drop_last(), input, pos);
        machines.last().lemma_step(input, pos);
    }
}

/// Feeding a position to a scan keeps it consistent.
pub proof fn lemma_fed(scan: Scan, input: Seq<u8>, pos: usize)
    requires
        pos < input.len() <= usize::MAX,
        scan.inv(pos as int),
    ensures
        scan.fed(input, pos).inv(pos + 1),
{
    lemma_feed_nested(scan.candidate_machines, input, pos);
    scan.candidate_machine.lemma_step(input, pos);
    scan.css_variable_machine.lemma_step(input, pos);
}

/// After `n` positions every span of the scan is a non-empty range of the
/// first `n` bytes.
pub proof fn lemma_scan(input: Seq<u8>, n: nat)
    requires
        n <= input.len() <= usize::MAX,
    ensures
        Scan::of(input, n).inv(n as int),
    decreases n,
{
    if n > 0 {
        lemma_scan(input, (n - 1) as nat);
        lemma_fed(Scan::of(input, (n - 1) as nat), input, (n - 1) as usize);
    }
}

/// The spans of the CSS variables that are extracted from `input`.
pub open spec fn variable_spans(input: Seq<u8>) -> Seq<Span> {
    Scan::of(input, input.len()).variables
}

/// The spans of the candidates that are extracted from `input`.
pub open spec fn candidate_spans(input: Seq<u8>) -> Seq<Span> {
    drop_covered(Scan::of(input, input.len()).candidates)
}

/// Every span that is extracted is a non-empty range of the input:
/// `start <= end < input.len()`.
pub proof fn lemma_extracted_spans_fit(input: Seq<u8>)
    requires
        input.len() <= usize::MAX,
    ensures
        forall|j: int|
            0 <= j < variable_spans(input).len() ==> (#[trigger] variable_spans(input)[j]).fits(
                input.len(),
            ),
        forall|j: int|
            0 <= j < candidate_spans(input).len() ==> (#[trigger] candidate_spans(input)[j]).fits(
                input.len(),
            ),
{
    let scan = Scan::of(input, input.len());
    lemma_scan(input, input.len());
    lemma_drop_covered(scan.candidates);
    assert forall|j: int| 0 <= j < candidate_spans(input).len() implies (
    #[trigger] candidate_spans(input)[j]).fits(input.len()) by {
        let span = candidate_spans(input)[j];
        assert(candidate_spans(input).contains(span));
        let at = choose|at: int| 0 <= at < scan.candidates.len() && scan.candidates[at] == span;
        assert(scan.candidates[at].fits(input.len()));
    }
}

/// Of the candidates that are extracted, none covers another one.
pub proof fn lemma_no_candidate_covers_another(input: Seq<u8>, i: int, j: int)
    requires
        0 <= i < candidate_spans(input).len(),
        0 <= j < candidate_spans(input).len(),
        i != j,
    ensures
        !strictly_covers(candidate_spans(input)[i], candidate_spans(input)[j]),
{
    lemma_no_span_covers_another(Scan::of(input, input.len()).candidates, i, j);
}

/// The CSS variable machine of a scan is fed every position, and the
/// scan collects what it reports.
pub proof fn lemma_scan_variables(input: Seq<u8>, n: nat)
    ensures
        Scan::of(input, n).css_variable_machine == CssVariableMachine::after(input, n),
        Scan::of(input, n).variables == CssVariableMachine::reports(input, n),
    decreases n,
{
    if n > 0 {
        lemma_scan_variables(input, (n - 1) as nat);
    }
}

/// Every CSS variable that is extracted begins with `--` and goes on with
/// bytes that may stand in a name and escaped bytes.
pub proof fn lemma_extracted_variables_are_css_variables(input: Seq<u8>, j: int)
    requires
        input.len() <= usize::MAX,
        0 <= j < variable_spans(input).len(),
    ensures
        is_css_variable(variable_spans(input)[j].of(input)),
{
    lemma_scan_variables(input, input.len());
    CssVariableMachine::lemma_reports_css_variables(input, input.len());
}

/// A CSS variable that is extracted from a text is also extracted from its
/// own bytes alone, as the last variable and whole.
pub proof fn lemma_variable_is_extracted_alone(input: Seq<u8>, j: int)
    requires
        input.len() <= usize::MAX,
        0 <= j < variable_spans(input).len(),
    ensures
        ({
            let name = variable_spans(input)[j].of(input);
            &&& variable_spans(name).len() > 0
            &&& variable_spans(name).last() == (Span {
                start: 0,
                end: (name.len() - 1) as usize,
            })
        }),
{
    let name = variable_spans(input)[j].of(input);
    lemma_extracted_variables_are_css_variables(input, j);
    lemma_extracted_spans_fit(input);
    lemma_css_variable_is_reported(name);
    lemma_scan_variables(name, name.len());
}

/// From a position before which the outer candidate machine of a scan is
/// in the state that it was constructed in, it goes on like a machine that
/// is first fed that position.
pub proof fn lemma_scan_candidate_machine(input: Seq<u8>, from: nat, n: nat)
    requires
        Scan::of(input, from).candidate_machine == CandidateView::fresh(),
    ensures
        Scan::of(input, from + n).candidate_machine == CandidateView::fed(input, from, n),
    decreases n,
{
    if n > 0 {
        lemma_scan_candidate_machine(input, from, (n - 1) as nat);
    }
}

/// A candidate machine that is first fed the position `from` completes a
/// candidate from `from` to `to`. Every candidate machine of a scan that
/// was as constructed before `from` is such a machine: the outer one at
/// the start of the input and wherever it has given up or reported what
/// stood before, a nested one behind its `[` likewise.
pub open spec fn is_read_as_candidate(input: Seq<u8>, from: usize, to: usize) -> bool {
    from <= to && CandidateView::fed(input, from as nat, (to - from) as nat).step(input, to).1
        == MachineState::Done(Span { start: from, end: to })
}

/// What is read from `from` to `to` is the key of an object, and the
/// utility in it begins behind `from`: in `a1bc: x` the key is `a1bc`, and
/// the utility is `bc`.
pub open spec fn key_begins_late(input: Seq<u8>, from: usize, to: usize) -> bool {
    from <= to && CandidateView::fed(input, from as nat, (to - from) as nat).key_begins_late(
        input,
        to,
    )
}

/// What is read as a candidate from its first byte on is also extracted
/// from its own bytes alone, unless it is the key of an object whose
/// utility begins late.
pub proof fn lemma_candidate_is_extracted_alone(input: Seq<u8>, from: usize, to: usize)
    requires
        to < input.len() <= usize::MAX,
        is_read_as_candidate(input, from, to),
        !key_begins_late(input, from, to),
    ensures
        candidate_spans(input.subrange(from as int, to + 1)).contains(
            Span { start: 0, end: (to - from) as usize },
        ),
{
    let part = input.subrange(from as int, to + 1);
    let last = (to - from) as nat;
    CandidateView::lemma_candidate_is_reported_alone(input, from, to);
    assert(Scan::of(part, 0).candidate_machine == CandidateView::fresh());
    lemma_scan_candidate_machine(part, 0, last);
    lemma_outer_candidate_is_collected(part, last);
    lemma_scan(part, part.len());
    lemma_whole_span_is_kept(Scan::of(part, part.len()).candidates, part.len());
}

/// The key of an object whose utility begins late is not extracted from
/// its own bytes alone: behind it the input ends, and only the utility is
/// reported.
pub proof fn lemma_late_key_is_not_extracted_alone(input: Seq<u8>, from: usize, to: usize)
    requires
        to < input.len() <= usize::MAX,
        is_read_as_candidate(input, from, to),
        key_begins_late(input, from, to),
    ensures
        !candidate_spans(input.subrange(from as int, to + 1)).contains(
            Span { start: 0, end: (to - from) as usize },
        ),
{
    let part = input.subrange(from as int, to + 1);
    let last = (to - from) as nat;
    let whole = Span { start: 0, end: (to - from) as usize };
    CandidateView::lemma_late_key_is_not_reported_alone(input, from, to);
    assert(Scan::of(part, 0).candidate_machine == CandidateView::fresh());
    lemma_scan_candidate_machine(part, 0, last);
    if candidate_spans(part).contains(whole) {
        let all = Scan::of(part, part.len()).candidates;
        lemma_drop_covered(all);
        assert(all.contains(whole));
        lemma_collected_by_outer_machine(part, 0, (to - from) as usize, part.len());
    }
}

/// A utility machine that is first fed the position `from` completes a
/// utility from `from` to `to`. Whatever a candidate machine reports
/// without a variant before it, it has from its utility machine, which has
/// read it so.
pub open spec fn is_read_as_utility(input: Seq<u8>, from: usize, to: usize) -> bool {
    from <= to && UtilityView::report(input, from as nat, (to - from) as nat)
        == MachineState::Done(Span { start: from, end: to })
}

/// What is read as a utility, wherever it stands and whatever the machine
/// was in the middle of, is also extracted from its own bytes alone,
/// unless the variant machine completes a variant in these bytes when they
/// stand alone: `["[color:red]/(--x,(a:b))"]` holds the utility between
/// the quotes, in which `a:` is a variant, and which alone gives
/// `color:red`.
pub proof fn lemma_utility_is_extracted_alone(input: Seq<u8>, from: usize, to: usize)
    requires
        to < input.len() <= usize::MAX,
        is_read_as_utility(input, from, to),
        !variant_completes_inside(input.subrange(from as int, to + 1)),
    ensures
        candidate_spans(input.subrange(from as int, to + 1)).contains(
            Span { start: 0, end: (to - from) as usize },
        ),
{
    let part = input.subrange(from as int, to + 1);
    let last = (to - from) as nat;
    UtilityView::lemma_utility_is_reported_alone(input, from, to);
    CandidateView::lemma_utility_is_a_candidate(part);
    assert(Scan::of(part, 0).candidate_machine == CandidateView::fresh());
    lemma_scan_candidate_machine(part, 0, last);
    lemma_outer_candidate_is_collected(part, last);
    lemma_scan(part, part.len());
    lemma_whole_span_is_kept(Scan::of(part, part.len()).candidates, part.len());
}

/// Feeding a position to the nested machines keeps their utility
/// machines reading on their own.
proof fn lemma_feed_nested_reads_alone(machines: Seq<CandidateView>, input: Seq<u8>, pos: usize)
    requires
        pos < input.len() <= usize::MAX,
        forall|j: int| 0 <= j < machines.len() ==> (#[trigger] machines[j]).inv(pos as int),
        forall|j: int|
            0 <= j < machines.len() ==> (#[trigger] machines[j]).reads_alone(input, pos as int),
    ensures
        feed_nested(machines, input, pos).0.len() == machines.len(),
        forall|j: int|
            0 <= j < machines.len() ==> (#[trigger] feed_nested(
                machines,
                input,
                pos,
            ).0[j]).reads_alone(input, pos + 1),
    decreases machines.len(),
{
    if machines.len() > 0 {
        lemma_feed_nested_reads_alone(machines.drop_last(), input, pos);
        machines.last().lemma_step_reads_alone(input, pos);
    }
}

/// In every candidate machine of a scan, the outer one and the nested
/// ones, the utility machine reads on its own.
pub proof fn lemma_scan_reads_alone(input: Seq<u8>, n: nat)
    requires
        n <= input.len() <= usize::MAX,
    ensures
        Scan::of(input, n).candidate_machine.reads_alone(input, n as int),
        forall|j: int|
            0 <= j < Scan::of(input, n).candidate_machines.len() ==> (#[trigger] Scan::of(
                input,
                n,
            ).candidate_machines[j]).reads_alone(input, n as int),
    decreases n,
{
    if n == 0 {
        UtilityView::lemma_fresh_reads_alone(input, 0);
    } else {
        let before = Scan::of(input, (n - 1) as nat);
        let pos = (n - 1) as usize;
        lemma_scan_reads_alone(input, (n - 1) as nat);
        lemma_scan(input, (n - 1) as nat);
        before.candidate_machine.lemma_step_reads_alone(input, pos);
        lemma_feed_nested_reads_alone(before.candidate_machines, input, pos);
        UtilityView::lemma_fresh_reads_alone(input, n as int);
    }
}

/// The utility machine of a candidate machine of the scan, of the outer
/// one or of a nested one, reports `span` at the position at which the
/// span ends.
pub open spec fn is_reported_as_utility(input: Seq<u8>, span: Span) -> bool {
    let scan = Scan::of(input, span.end as nat);
    let report = MachineState::Done(span);
    ||| scan.candidate_machine.utility_machine.step(input, span.end).1 == report
    ||| exists|j: int|
        0 <= j < scan.candidate_machines.len() && (#[trigger] scan.candidate_machines[j])
            .utility_machine.step(input, span.end).1 == report
}

/// What a utility machine of the scan reports is read as a utility: the
/// machine has read it as a machine does that is first fed the first byte
/// of the utility.
pub proof fn lemma_reported_utility_is_read_as_utility(input: Seq<u8>, span: Span)
    requires
        span.end < input.len() <= usize::MAX,
        is_reported_as_utility(input, span),
    ensures
        is_read_as_utility(input, span.start, span.end),
{
    let scan = Scan::of(input, span.end as nat);
    lemma_scan_reads_alone(input, span.end as nat);
    lemma_scan(input, span.end as nat);
    if scan.candidate_machine.utility_machine.step(input, span.end).1 == MachineState::Done(
        span,
    ) {
        scan.candidate_machine.utility_machine.lemma_step_reads_alone(input, span.end);
    } else {
        let j = choose|j: int|
            0 <= j < scan.candidate_machines.len() && (#[trigger] scan.candidate_machines[j])
                .utility_machine.step(input, span.end).1 == MachineState::Done(span);
        scan.candidate_machines[j].utility_machine.lemma_step_reads_alone(input, span.end);
    }
}

/// A utility that a utility machine of the scan reports, in the middle of
/// whatever the candidate machines are reading, is also extracted from its
/// own bytes alone, unless the variant machine completes a variant in
/// these bytes when they stand alone.
pub proof fn lemma_reported_utility_is_extracted_alone(input: Seq<u8>, span: Span)
    requires
        span.end < input.len() <= usize::MAX,
        is_reported_as_utility(input, span),
        !variant_completes_inside(span.of(input)),
    ensures
        candidate_spans(span.of(input)).contains(
            Span { start: 0, end: (span.end - span.start) as usize },
        ),
{
    lemma_reported_utility_is_read_as_utility(input, span);
    lemma_utility_is_extracted_alone(input, span.start, span.end);
}

/// A candidate machine of the scan, the outer one or a nested one, reports
/// `span` at the position at which the span ends.
pub open spec fn is_reported(input: Seq<u8>, span: Span) -> bool {
    let scan = Scan::of(input, span.end as nat);
    let report = MachineState::Done(span);
    ||| scan.candidate_machine.step(input, span.end).1 == report
    ||| exists|j: int|
        0 <= j < scan.candidate_machines.len() && (#[trigger] scan.candidate_machines[j]).step(
            input,
            span.end,
        ).1 == report
}

/// A span that the nested machines complete at a position, one of them
/// has reported there.
proof fn lemma_feed_nested_reports(
    machines: Seq<CandidateView>,
    input: Seq<u8>,
    pos: usize,
    span: Span,
)
    requires
        feed_nested(machines, input, pos).1.contains(span),
    ensures
        exists|j: int|
            0 <= j < machines.len() && (#[trigger] machines[j]).step(input, pos).1
                == MachineState::Done(span),
    decreases machines.len(),
{
    let spans = feed_nested(machines, input, pos).1;
    let at = choose|at: int| 0 <= at < spans.len() && spans[at] == span;
    if machines.len() > 0 {
        let earlier = feed_nested(machines.drop_last(), input, pos).1;
        if at < earlier.len() {
            assert(earlier[at] == span);
            assert(earlier.contains(span));
            lemma_feed_nested_reports(machines.drop_last(), input, pos, span);
            let j = choose|j: int|
                0 <= j < machines.drop_last().len() && (#[trigger] machines.drop_last()[j]).step(
                    input,
                    pos,
                ).1 == MachineState::Done(span);
            assert(machines[j] == machines.drop_last()[j]);
        } else {
            assert(machines[machines.len() - 1].step(input, pos).1 == MachineState::Done(span));
        }
    }
}

/// Every span that a scan has collected, a candidate machine of the scan
/// has reported at the position at which the span ends.
pub proof fn lemma_collected_by_a_machine(input: Seq<u8>, span: Span, n: nat)
    requires
        n <= input.len() <= usize::MAX,
        Scan::of(input, n).candidates.contains(span),
    ensures
        span.end < n,
        is_reported(input, span),
    decreases n,
{
    let all = Scan::of(input, n).candidates;
    let at = choose|at: int| 0 <= at < all.len() && all[at] == span;
    if n > 0 {
        let before = Scan::of(input, (n - 1) as nat);
        let pos = (n - 1) as usize;
        let inner = if is_whitespace(byte_at(input, pos as int)) {
            Seq::<Span>::empty()
        } else {
            feed_nested(before.candidate_machines, input, pos).1
        };
        let outer = before.candidate_machine.step(input, pos).1.found();
        assert(all == before.candidates + inner + outer);
        lemma_scan(input, (n - 1) as nat);
        lemma_feed_nested(before.candidate_machines, input, pos);
        before.candidate_machine.lemma_step(input, pos);
        if at < before.candidates.len() {
            assert(before.candidates[at] == span);
            assert(before.candidates.contains(span));
            lemma_collected_by_a_machine(input, span, (n - 1) as nat);
        } else if at < before.candidates.len() + inner.len() {
            let k = at - before.candidates.len();
            assert(inner[k] == span);
            assert(inner.contains(span));
            lemma_feed_nested_reports(before.candidate_machines, input, pos, span);
            let j = choose|j: int|
                0 <= j < before.candidate_machines.len() && (
                #[trigger] before.candidate_machines[j]).step(input, pos).1
                    == MachineState::Done(span);
            before.candidate_machines[j].lemma_step(input, pos);
        } else {
            assert(outer[at - before.candidates.len() - inner.len()] == span);
        }
    }
}

/// Feeding a position to the nested machines keeps `reads_from_start`.
proof fn lemma_feed_nested_reads_from_start(
    machines: Seq<CandidateView>,
    input: Seq<u8>,
    pos: usize,
)
    requires
        pos < input.len() <= usize::MAX,
        forall|j: int| 0 <= j < machines.len() ==> (#[trigger] machines[j]).inv(pos as int),
        forall|j: int|
            0 <= j < machines.len() ==> (#[trigger] machines[j]).reads_from_start(
                input,
                pos as int,
            ),
    ensures
        feed_nested(machines, input, pos).0.len() == machines.len(),
        forall|j: int|
            0 <= j < machines.len() ==> (#[trigger] feed_nested(
                machines,
                input,
                pos,
            ).0[j]).reads_from_start(input, pos + 1),
    decreases machines.len(),
{
    if machines.len() > 0 {
        lemma_feed_nested_reads_from_start(machines.drop_last(), input, pos);
        machines.last().lemma_step_reads_from_start(input, pos);
    }
}

/// Every candidate machine of a scan reads what it reads of a candidate
/// from the start of the candidate, unless a `!` stands before it.
pub proof fn lemma_scan_reads_from_start(input: Seq<u8>, n: nat)
    requires
        n <= input.len() <= usize::MAX,
    ensures
        Scan::of(input, n).candidate_machine.reads_from_start(input, n as int),
        forall|j: int|
            0 <= j < Scan::of(input, n).candidate_machines.len() ==> (#[trigger] Scan::of(
                input,
                n,
            ).candidate_machines[j]).reads_from_start(input, n as int),
    decreases n,
{
    if n > 0 {
        let before = Scan::of(input, (n - 1) as nat);
        let pos = (n - 1) as usize;
        lemma_scan_reads_from_start(input, (n - 1) as nat);
        lemma_scan(input, (n - 1) as nat);
        before.candidate_machine.lemma_step_reads_from_start(input, pos);
        lemma_feed_nested_reads_from_start(before.candidate_machines, input, pos);
    }
}

/// Every candidate that is extracted is of one of three kinds: a utility
/// machine of the scan has reported it; or a candidate machine has read it
/// from its first byte on; or a `!` stands directly before it, which the
/// utility machine has read, as in `!hover:flex`, where `hover:flex` is
/// extracted. The first two kinds are those of which
/// `lemma_reported_utility_is_extracted_alone` and
/// `lemma_candidate_is_extracted_alone` speak.
pub proof fn lemma_kinds_of_candidates(input: Seq<u8>, span: Span)
    requires
        input.len() <= usize::MAX,
        candidate_spans(input).contains(span),
    ensures
        span.end < input.len(),
        is_reported_as_utility(input, span) || is_read_as_candidate(
            input,
            span.start,
            span.end,
        ) || is_behind_bang(input, span.start as int),
{
    let all = Scan::of(input, input.len()).candidates;
    lemma_drop_covered(all);
    assert(all.contains(span));
    lemma_collected_by_a_machine(input, span, input.len());
    let scan = Scan::of(input, span.end as nat);
    lemma_scan(input, span.end as nat);
    lemma_scan_reads_from_start(input, span.end as nat);
    if scan.candidate_machine.step(input, span.end).1 == MachineState::Done(span) {
        scan.candidate_machine.lemma_report_kinds(input, span.end);
        scan.candidate_machine.lemma_step(input, span.end);
    } else {
        let j = choose|j: int|
            0 <= j < scan.candidate_machines.len() && (#[trigger] scan.candidate_machines[j])
                .step(input, span.end).1 == MachineState::Done(span);
        scan.candidate_machines[j].lemma_report_kinds(input, span.end);
        scan.candidate_machines[j].lemma_step(input, span.end);
    }
}

/// The scan collects what its outer candidate machine completes.
proof fn lemma_outer_candidate_is_collected(input: Seq<u8>, n: nat)
    requires
        n < input.len(),
        Scan::of(input, n).candidate_machine.step(input, n as usize).1 is Done,
    ensures
        Scan::of(input, n + 1).candidates.len() > 0,
        MachineState::Done(Scan::of(input, n + 1).candidates.last()) == Scan::of(
            input,
            n,
        ).candidate_machine.step(input, n as usize).1,
{
    let before = Scan::of(input, n);
    assert(Scan::of(input, n + 1) == before.fed(input, n as usize));
}

/// A span that covers all of the input is not dropped.
proof fn lemma_whole_span_is_kept(all: Seq<Span>, len: nat)
    requires
        0 < len <= usize::MAX,
        forall|j: int| 0 <= j < all.len() ==> (#[trigger] all[j]).fits(len),
        all.len() > 0,
        all.last() == (Span { start: 0, end: (len - 1) as usize }),
    ensures
        drop_covered(all).contains(Span { start: 0, end: (len - 1) as usize }),
{
    let whole = Span { start: 0, end: (len - 1) as usize };
    assert(all[all.len() - 1] == whole);
    assert(all.contains(whole));
    lemma_drop_covered(all);
    assert(!covered(all, whole)) by {
        if covered(all, whole) {
            let at = choose|at: int|
                0 <= at < all.len() && strictly_covers(#[trigger] all[at], whole);
            assert(all[at].fits(len));
        }
    }
}

/// The outer candidate machine of a scan is steady.
pub proof fn lemma_scan_steady(input: Seq<u8>, n: nat)
    requires
        n <= input.len() <= usize::MAX,
    ensures
        Scan::of(input, n).candidate_machine.steady(input, n as int),
    decreases n,
{
    if n == 0 {
        CandidateView::lemma_fresh_steady(input, 0);
    } else {
        lemma_scan_steady(input, (n - 1) as nat);
        Scan::of(input, (n - 1) as nat).candidate_machine.lemma_step_steady(
            input,
            (n - 1) as usize,
        );
    }
}

/// At the start of the input and behind a whitespace that no backslash
/// precedes, the outer candidate machine is as it was constructed, and
/// there are no nested machines.
pub proof fn lemma_scan_starts_anew(input: Seq<u8>, from: nat)
    requires
        from <= input.len() <= usize::MAX,
        from == 0 || is_bare_whitespace(input, from - 1),
    ensures
        Scan::of(input, from).candidate_machine == CandidateView::fresh(),
        Scan::of(input, from).candidate_machines.len() == 0,
{
    if from > 0 {
        let before = Scan::of(input, (from - 1) as nat);
        lemma_scan_steady(input, (from - 1) as nat);
        before.candidate_machine.lemma_whitespace_resets(input, (from - 1) as usize);
        assert(Scan::of(input, from) == before.fed(input, (from - 1) as usize));
    }
}

/// Machines that are fed positions from `from` on report spans that begin
/// there or later.
proof fn lemma_feed_nested_since(
    machines: Seq<CandidateView>,
    input: Seq<u8>,
    pos: usize,
    from: int,
)
    requires
        machines.len() > 0 ==> from <= pos,
        forall|j: int| 0 <= j < machines.len() ==> (#[trigger] machines[j]).since(from),
    ensures
        feed_nested(machines, input, pos).0.len() == machines.len(),
        forall|j: int|
            0 <= j < machines.len() ==> (#[trigger] feed_nested(machines, input, pos).0[j]).since(
                from,
            ),
        forall|j: int|
            0 <= j < feed_nested(machines, input, pos).1.len() ==> (#[trigger] feed_nested(
                machines,
                input,
                pos,
            ).1[j]).start >= from,
    decreases machines.len(),
{
    if machines.len() > 0 {
        lemma_feed_nested_since(machines.drop_last(), input, pos, from);
        machines.last().lemma_step_since(input, pos, from);
    }
}

/// The nested machines of a scan that had none before position `from`
/// have read nothing of what stands before the position behind `from`:
/// each of them was started behind a `[` at `from` or later.
proof fn lemma_scan_nested_since(input: Seq<u8>, from: nat, n: nat)
    requires
        from <= n <= input.len() <= usize::MAX,
        Scan::of(input, from).candidate_machines.len() == 0,
    ensures
        forall|j: int|
            0 <= j < Scan::of(input, n).candidate_machines.len() ==> (#[trigger] Scan::of(
                input,
                n,
            ).candidate_machines[j]).since((from + 1) as int),
        n == from ==> Scan::of(input, n).candidate_machines.len() == 0,
    decreases n,
{
    if n > from {
        let before = Scan::of(input, (n - 1) as nat);
        lemma_scan_nested_since(input, from, (n - 1) as nat);
        lemma_feed_nested_since(
            before.candidate_machines,
            input,
            (n - 1) as usize,
            (from + 1) as int,
        );
        CandidateView::lemma_fresh_since((from + 1) as int);
    }
}

/// A span that a scan has collected, it has collected at the position at
/// which the span ends. If the scan had no nested machines before the
/// position at which the span begins, the outer candidate machine has
/// reported it.
proof fn lemma_collected_by_outer_machine(input: Seq<u8>, from: usize, to: usize, n: nat)
    requires
        from <= to < n <= input.len() <= usize::MAX,
        Scan::of(input, from as nat).candidate_machines.len() == 0,
        Scan::of(input, n).candidates.contains(Span { start: from, end: to }),
    ensures
        Scan::of(input, to as nat).candidate_machine.step(input, to).1 == MachineState::Done(
            Span { start: from, end: to },
        ),
    decreases n,
{
    let span = Span { start: from, end: to };
    let before = Scan::of(input, (n - 1) as nat);
    let pos = (n - 1) as usize;
    let all = Scan::of(input, n).candidates;
    let at = choose|at: int| 0 <= at < all.len() && all[at] == span;
    let inner = if is_whitespace(byte_at(input, pos as int)) {
        Seq::<Span>::empty()
    } else {
        feed_nested(before.candidate_machines, input, pos).1
    };
    let outer = before.candidate_machine.step(input, pos).1.found();
    assert(all == before.candidates + inner + outer);
    lemma_scan(input, (n - 1) as nat);
    lemma_fed(before, input, pos);
    lemma_feed_nested(before.candidate_machines, input, pos);
    before.candidate_machine.lemma_step(input, pos);
    if at < before.candidates.len() {
        assert(before.candidates[at] == span);
        assert(before.candidates.contains(span));
        lemma_collected_by_outer_machine(input, from, to, (n - 1) as nat);
    } else if at < before.candidates.len() + inner.len() {
        let j = at - before.candidates.len();
        assert(inner[j] == span);
        lemma_scan_nested_since(input, from as nat, (n - 1) as nat);
        lemma_feed_nested_since(before.candidate_machines, input, pos, from + 1);
    } else {
        assert(outer[at - before.candidates.len() - inner.len()] == span);
    }
}

/// A candidate that begins at the start of the input, or behind a
/// whitespace that no backslash precedes, is also extracted from its own
/// bytes alone, unless it is the key of an object whose utility begins
/// late.
pub proof fn lemma_candidate_behind_whitespace_is_extracted_alone(
    input: Seq<u8>,
    from: usize,
    to: usize,
)
    requires
        from <= to < input.len() <= usize::MAX,
        from == 0 || is_bare_whitespace(input, from - 1),
        candidate_spans(input).contains(Span { start: from, end: to }),
        !key_begins_late(input, from, to),
    ensures
        candidate_spans(input.subrange(from as int, to + 1)).contains(
            Span { start: 0, end: (to - from) as usize },
        ),
{
    let span = Span { start: from, end: to };
    let all = Scan::of(input, input.len()).candidates;
    lemma_drop_covered(all);
    assert(all.contains(span));
    lemma_scan_starts_anew(input, from as nat);
    lemma_collected_by_outer_machine(input, from, to, input.len());
    lemma_scan_candidate_machine(input, from as nat, (to - from) as nat);
    lemma_candidate_is_extracted_alone(input, from, to);
}

} // verus!
