//! The extraction core: the state machines and the driver that feeds them.

use vstd::prelude::*;
use crate::cursor::Cursor;
use crate::extractor::bytes::{is_whitespace, OPEN_BRACKET};
use crate::extractor::candidate_machine::{CandidateMachine, CandidateView};
use crate::extractor::cover::{drop_covered, lemma_drop_covered, naive_drop_covered_spans};
use crate::extractor::css_variable_machine::CssVariableMachine;
use crate::extractor::machine::{MachineState, Span};
use crate::extractor::scan::{extraction, feed_nested, lemma_fed, Scan};

pub mod arbitrary_property_machine;
pub mod arbitrary_value_machine;
pub mod arbitrary_variable_machine;
pub mod bracket_stack;
pub mod bytes;
pub mod candidate_machine;
pub mod cover;
pub mod css_variable_machine;
pub mod machine;
pub mod modifier_machine;
pub mod named_utility_machine;
pub mod named_variant_machine;
pub mod position;
pub mod pre_processors;
pub mod scan;
pub mod string_machine;
pub mod utility_machine;
pub mod variant_machine;

verus! {

/// What the extractor found in the input.
#[derive(Debug)]
pub enum Extracted<'a> {
    /// Bytes that look like a candidate, such as `flex`.
    Candidate(&'a [u8]),
    /// Bytes that look like a CSS variable, such as `--my-variable`.
    CssVariable(&'a [u8]),
}

/// What the extractor found, with the bytes as a sequence.
pub enum ExtractedView {
    Candidate(Seq<u8>),
    CssVariable(Seq<u8>),
}

impl View for Extracted<'_> {
    type V = ExtractedView;

    open spec fn view(&self) -> ExtractedView {
        match self {
            Extracted::Candidate(bytes) => ExtractedView::Candidate(bytes@),
            Extracted::CssVariable(bytes) => ExtractedView::CssVariable(bytes@),
        }
    }
}

impl DeepView for Extracted<'_> {
    type V = ExtractedView;

    open spec fn deep_view(&self) -> ExtractedView {
        self@
    }
}

/// The views of the machines in a vector.
pub open spec fn views(machines: Seq<CandidateMachine>) -> Seq<CandidateView> {
    Seq::new(machines.len(), |i: int| machines[i]@)
}

/// Feeds the position of `cursor` to every nested machine and adds the
/// spans that they complete to `spans`.
fn feed_nested_machines(
    machines: &mut Vec<CandidateMachine>,
    cursor: &Cursor<'_>,
    spans: &mut Vec<Span>,
)
    requires
        cursor.wf(),
        forall|j: int|
            0 <= j < old(machines)@.len() ==> (#[trigger] old(machines)@[j])@.inv(
                cursor.pos as int,
            ),
    ensures
        views(final(machines)@) == feed_nested(views(old(machines)@), cursor.input@, cursor.pos).0,
        final(spans)@ == old(spans)@ + feed_nested(
            views(old(machines)@),
            cursor.input@,
            cursor.pos,
        ).1,
{
    let ghost before = views(machines@);
    let ghost input = cursor.input@;
    let mut k: usize = 0;
    while k < machines.len()
        invariant
            cursor.wf(),
            input == cursor.input@,
            before == views(old(machines)@),
            k <= machines@.len() == before.len(),
            forall|j: int| k <= j < machines@.len() ==> (#[trigger] machines@[j])@ == before[j],
            forall|j: int| 0 <= j < before.len() ==> (#[trigger] before[j]).inv(cursor.pos as int),
            views(machines@).take(k as int) == feed_nested(
                before.take(k as int),
                input,
                cursor.pos,
            ).0,
            spans@ == old(spans)@ + feed_nested(before.take(k as int), input, cursor.pos).1,
        decreases machines.len() - k,
    {
        let ghost earlier = views(machines@);
        let ghost collected = spans@;
        proof {
            assert(before.take(k + 1).drop_last() =~= before.take(k as int));
            assert(before.take(k + 1).last() == before[k as int]);
        }
        let state = machines[k].next(cursor);
        if let MachineState::Done(span) = state {
            spans.push(span);
        }
        proof {
            assert(spans@ =~= collected + state.found());
            assert(views(machines@).take(k + 1) =~= earlier.take(k as int).push(
                machines@[k as int]@,
            ));
        }
        k += 1;
    }
    proof {
        assert(views(machines@).take(k as int) =~= views(machines@));
        assert(before.take(k as int) =~= before);
    }
}

/// Finds the candidates and the CSS variables in one buffer.
#[derive(Debug)]
pub struct Extractor<'a> {
    cursor: Cursor<'a>,
    css_variable_machine: CssVariableMachine,
    candidate_machine: CandidateMachine,
    /// Machines that look for candidates inside of brackets. One is started
    /// behind every `[`, since what follows may be an array or an attribute
    /// of the host language in place of an arbitrary value: in
    /// `[CssClass("flex")]` only such a machine sees `flex`.
    candidate_machines: Vec<CandidateMachine>,
}

impl<'a> Extractor<'a> {
    /// The buffer that the extractor reads.
    pub closed spec fn input(&self) -> Seq<u8> {
        self.cursor.input@
    }

    /// No position was fed to the machines of the extractor yet.
    pub closed spec fn is_fresh(&self) -> bool {
        &&& self.cursor.wf()
        &&& self.css_variable_machine == CssVariableMachine::fresh()
        &&& self.candidate_machine@ == CandidateView::fresh()
        &&& self.candidate_machines@.len() == 0
    }

    /// The number of machines that look for candidates inside of brackets.
    pub closed spec fn nested_machines(&self) -> nat {
        self.candidate_machines@.len()
    }

    /// The machines of the extractor and the spans collected so far are
    /// those of `scan`.
    spec fn follows(&self, scan: Scan, spans: Seq<Span>, extracted: Seq<Extracted<'a>>) -> bool {
        &&& self.css_variable_machine == scan.css_variable_machine
        &&& self.candidate_machine@ == scan.candidate_machine
        &&& views(self.candidate_machines@) == scan.candidate_machines
        &&& spans == scan.candidates
        &&& extracted.len() == scan.variables.len()
        &&& forall|j: int|
            0 <= j < extracted.len() ==> (#[trigger] extracted[j])@ == ExtractedView::CssVariable(
                scan.variables[j].of(self.cursor.input@),
            )
    }

    /// An extractor for `input`.
    pub fn new(input: &'a [u8]) -> (extractor: Self)
        ensures
            extractor.input() == input@,
            extractor.is_fresh(),
    {
        Extractor {
            cursor: Cursor::new(input),
            css_variable_machine: CssVariableMachine::new(),
            candidate_machine: CandidateMachine::new(),
            candidate_machines: Vec::new(),
        }
    }

    /// Reads the buffer from its first to its last byte and returns what
    /// looks like a CSS variable or a candidate: first the CSS variables in
    /// the order in which they end, then the candidates that no other
    /// candidate covers, from left to right. The extractor never holds more
    /// nested machines than the buffer has bytes.
    pub fn extract(&mut self) -> (extracted: Vec<Extracted<'a>>)
        requires
            old(self).is_fresh(),
        ensures
            final(self).input() == old(self).input(),
            extracted.deep_view() == extraction(old(self).input()),
            final(self).nested_machines() <= old(self).input().len(),
    {
        let input = self.cursor.input;
        let len = input.len();
        // The spans of all candidates, those of the nested machines too. If
        // the outer machine completes a candidate around them, they are
        // covered by it and dropped in the end.
        let mut in_flight_spans: Vec<Span> = Vec::new();
        let mut extracted: Vec<Extracted<'a>> = Vec::new();

        proof {
            assert(views(self.candidate_machines@) =~= Seq::<CandidateView>::empty());
        }
        let mut i: usize = 0;
        while i < len
            invariant
                i <= len == input@.len(),
                input == self.cursor.input,
                self.cursor.wf(),
                Scan::of(input@, i as nat).inv(i as int),
                self.follows(Scan::of(input@, i as nat), in_flight_spans@, extracted@),
            decreases len - i,
        {
            let ghost scan = Scan::of(input@, i as nat);
            proof {
                lemma_fed(scan, input@, i);
                assert(views(self.candidate_machines@).len() == scan.candidate_machines.len());
                assert forall|j: int| 0 <= j < self.candidate_machines@.len() implies (
                #[trigger] self.candidate_machines@[j])@.inv(i as int) by {
                    assert(views(self.candidate_machines@)[j] == scan.candidate_machines[j]);
                }
            }
            self.cursor.move_to(i);

            if is_whitespace(self.cursor.curr) {
                // Behind whitespace no nested machine can complete anything.
                self.candidate_machines.clear();
            } else {
                feed_nested_machines(
                    &mut self.candidate_machines,
                    &self.cursor,
                    &mut in_flight_spans,
                );
                if self.cursor.curr == OPEN_BRACKET {
                    self.candidate_machines.push(CandidateMachine::new());
                }
            }
            let ghost inner = in_flight_spans@;

            if let MachineState::Done(span) = self.candidate_machine.next(&self.cursor) {
                in_flight_spans.push(span);
            }

            if let MachineState::Done(span) = self.css_variable_machine.next(&self.cursor) {
                extracted.push(Extracted::CssVariable(span.slice(input)));
            }

            proof {
                let after = scan.fed(input@, i);
                assert(Scan::of(input@, (i + 1) as nat) == after);
                assert(views(self.candidate_machines@) =~= after.candidate_machines);
                assert(in_flight_spans@ =~= after.candidates);
            }
            i += 1;
        }

        let ghost scan = Scan::of(input@, len as nat);
        let ghost variables = extracted@;
        assert(views(self.candidate_machines@).len() == scan.candidate_machines.len());
        let spans = naive_drop_covered_spans(in_flight_spans);
        proof {
            lemma_drop_covered(scan.candidates);
            assert forall|j: int| 0 <= j < spans@.len() implies (#[trigger] spans@[j]).fits(
                len as nat,
            ) by {
                assert(spans@.contains(spans@[j]));
                let at = choose|at: int|
                    0 <= at < scan.candidates.len() && scan.candidates[at] == spans@[j];
                assert(scan.candidates[at].fits(len as nat));
            }
        }
        let mut k: usize = 0;
        while k < spans.len()
            invariant
                k <= spans.len(),
                len == input@.len(),
                spans@ == drop_covered(scan.candidates),
                forall|j: int| 0 <= j < spans.len() ==> (#[trigger] spans@[j]).fits(len as nat),
                extracted@.len() == variables.len() + k,
                forall|j: int| 0 <= j < variables.len() ==> extracted@[j] == variables[j],
                forall|j: int|
                    0 <= j < k ==> (#[trigger] extracted@[variables.len() + j])@
                        == ExtractedView::Candidate(spans@[j].of(input@)),
            decreases spans.len() - k,
        {
            extracted.push(Extracted::Candidate(spans[k].slice(input)));
            k += 1;
        }
        proof {
            let all = extraction(input@);
            assert(all.len() == extracted@.len());
            assert forall|j: int| 0 <= j < all.len() implies extracted.deep_view()[j]
                == all[j] by {
                if j < variables.len() {
                    assert(extracted@[j] == variables[j]);
                } else {
                    assert(extracted@[variables.len() + (j - variables.len())]@
                        == ExtractedView::Candidate(spans@[j - variables.len()].of(input@)));
                }
            }
            assert(extracted.deep_view() =~= all);
        }
        extracted
    }
}

} // verus!
