//! Candidates: a sequence of touching variants followed by one utility.

use vstd::prelude::*;
use crate::cursor::{byte_at, Cursor};
use crate::extractor::bytes::{
    is_quote, is_whitespace, BANG, COLON, DASH, EQUALS, HASH, LESS_THAN, OPEN_BRACKET,
    OPEN_PAREN, SLASH,
};
use crate::extractor::machine::{MachineState, Span};
use crate::extractor::utility_machine::{ends_utility, UtilityMachine, UtilityView};
use crate::extractor::variant_machine::{VariantMachine, VariantView};

verus! {

/// What `is_boundary_character` computes.
pub open spec fn spec_is_boundary_character(byte: u8) -> bool {
    is_whitespace(byte) || is_quote(byte) || byte == EQUALS
}

/// A byte after which a new candidate may begin: whitespace, a quote or
/// `=`.
#[verifier::when_used_as_spec(spec_is_boundary_character)]
pub fn is_boundary_character(byte: u8) -> (yes: bool)
    ensures
        yes == spec_is_boundary_character(byte),
{
    is_whitespace(byte) || is_quote(byte) || byte == EQUALS
}

/// What `cannot_follow` computes.
pub open spec fn spec_cannot_follow(byte: u8) -> bool {
    byte == SLASH || byte == BANG || byte == EQUALS || byte == HASH || byte == DASH || byte
        == OPEN_BRACKET || byte == OPEN_PAREN || byte == COLON
}

/// A byte that cannot stand directly behind a candidate: one of
/// `/ ! = # - [ ( :`.
#[verifier::when_used_as_spec(spec_cannot_follow)]
pub fn cannot_follow(byte: u8) -> (yes: bool)
    ensures
        yes == spec_cannot_follow(byte),
{
    byte == SLASH || byte == BANG || byte == EQUALS || byte == HASH || byte == DASH || byte
        == OPEN_BRACKET || byte == OPEN_PAREN || byte == COLON
}

/// Two spans touch when the second begins directly behind the end of the
/// first.
pub open spec fn touching(end_pos: usize, start: usize) -> bool {
    start == end_pos + 1
}

/// Where the machine stands in a candidate.
#[derive(Debug, Clone, Copy, PartialEq, Eq, Structural)]
pub enum State {
    Idle,
    /// Inside a candidate.
    Parsing,
    /// Waiting for a byte after which a new candidate may begin.
    ResumeAtBoundary,
}

/// Recognizes a candidate, such as `hover:focus:bg-red-500/20`.
#[derive(Debug)]
pub struct CandidateMachine {
    /// Start position of the candidate.
    start_pos: usize,
    /// End position of the last variant.
    last_variant_end_pos: Option<usize>,
    /// Current state of the machine.
    state: State,
    utility_machine: UtilityMachine,
    variant_machine: VariantMachine,
}

/// The candidate machine as specifications see it.
pub struct CandidateView {
    pub start_pos: usize,
    pub last_variant_end_pos: Option<usize>,
    pub state: State,
    pub utility_machine: UtilityView,
    pub variant_machine: VariantView,
}

impl View for CandidateMachine {
    type V = CandidateView;

    closed spec fn view(&self) -> CandidateView {
        CandidateView {
            start_pos: self.start_pos,
            last_variant_end_pos: self.last_variant_end_pos,
            state: self.state,
            utility_machine: self.utility_machine@,
            variant_machine: self.variant_machine@,
        }
    }
}

impl CandidateView {
    /// The machine as it is constructed and after every reset.
    pub open spec fn fresh() -> CandidateView {
        CandidateView {
            start_pos: 0,
            last_variant_end_pos: None,
            state: State::Idle,
            utility_machine: UtilityView::fresh(),
            variant_machine: VariantView::fresh(),
        }
    }

    /// The machine that waits for the next boundary.
    pub open spec fn resuming() -> CandidateView {
        CandidateView { state: State::ResumeAtBoundary, ..CandidateView::fresh() }
    }

    /// Holds when all positions fed so far lie before `pos`.
    pub open spec fn inv(self, pos: int) -> bool {
        &&& self.utility_machine.inv(pos)
        &&& self.variant_machine.inv(pos)
        &&& self.state == State::Parsing ==> self.start_pos < pos
        &&& self.last_variant_end_pos matches Some(end_pos) ==> end_pos < pos
    }

    /// The step of the machine when it is outside of a candidate.
    pub open spec fn step_idle(self, input: Seq<u8>, pos: usize) -> (CandidateView, MachineState) {
        let curr = byte_at(input, pos as int);
        let next = byte_at(input, pos + 1);
        if (curr == DASH && next == DASH) || curr == LESS_THAN || curr == SLASH {
            (CandidateView::resuming(), MachineState::Idle)
        } else {
            let (variant_machine, variant) = self.variant_machine.step(input, pos);
            let (utility_machine, utility) = self.utility_machine.step(input, pos);
            let fed = CandidateView { variant_machine, utility_machine, ..self };
            if utility is Done {
                (CandidateView::fresh(), utility)
            } else if variant is Parsing || utility is Parsing {
                (
                    CandidateView { start_pos: pos, state: State::Parsing, ..fed },
                    MachineState::Parsing,
                )
            } else {
                (fed, MachineState::Idle)
            }
        }
    }

    /// What the machine reports once the utility machine has completed the
    /// utility `span`: the whole candidate if there are variants and the
    /// utility touches the last one, else the utility alone. Either way the
    /// machine starts anew.
    pub open spec fn close(self, span: Span, pos: usize) -> (CandidateView, MachineState) {
        if self.last_variant_end_pos matches Some(end_pos) && touching(end_pos, span.start) {
            (CandidateView::fresh(), MachineState::Done(Span { start: self.start_pos, end: pos }))
        } else {
            (CandidateView::fresh(), MachineState::Done(span))
        }
    }

    /// The step of the machine inside of a candidate. Both machines are fed
    /// the position. Then:
    ///
    /// - If both are idle, the candidate is given up.
    /// - If the variant machine has completed a variant, the variant has
    ///   to touch the one before it, or the machine waits for the next
    ///   boundary. Its end is kept, and both machines start anew.
    /// - If the utility machine has completed a utility and a `:`
    ///   follows, the utility is the name of a variant, and the utility
    ///   machine starts anew. Only where there is no variant yet and a
    ///   whitespace follows the `:`, what was read is the key of an object
    ///   and is reported from where the candidate began.
    /// - If the utility machine has completed a utility and a byte
    ///   follows that cannot follow a candidate, the machine waits for the
    ///   next boundary.
    /// - If the utility machine has completed any other utility, the
    ///   candidate is closed.
    /// - Else the machine goes on.
    pub open spec fn step_parsing(self, input: Seq<u8>, pos: usize) -> (
        CandidateView,
        MachineState,
    ) {
        let next = byte_at(input, pos + 1);
        let (variant_machine, variant) = self.variant_machine.step(input, pos);
        let (utility_machine, utility) = self.utility_machine.step(input, pos);
        let fed = CandidateView { variant_machine, utility_machine, ..self };
        match (variant, utility) {
            (MachineState::Idle, MachineState::Idle) => (CandidateView::fresh(), MachineState::Idle),
            (MachineState::Done(span), _) => {
                if self.last_variant_end_pos matches Some(end_pos) && !touching(
                    end_pos,
                    span.start,
                ) {
                    (CandidateView::resuming(), MachineState::Idle)
                } else {
                    (
                        CandidateView {
                            last_variant_end_pos: Some(pos),
                            variant_machine: VariantView::fresh(),
                            utility_machine: UtilityView::fresh(),
                            ..self
                        },
                        MachineState::Parsing,
                    )
                }
            },
            (MachineState::Parsing, MachineState::Done(span)) => {
                if next == COLON {
                    if self.last_variant_end_pos is None && is_whitespace(
                        byte_at(input, pos + 2),
                    ) {
                        (
                            CandidateView::fresh(),
                            MachineState::Done(Span { start: self.start_pos, end: pos }),
                        )
                    } else {
                        (
                            CandidateView { utility_machine: UtilityView::fresh(), ..fed },
                            MachineState::Parsing,
                        )
                    }
                } else if cannot_follow(next) {
                    (CandidateView::resuming(), MachineState::Idle)
                } else {
                    fed.close(span, pos)
                }
            },
            (MachineState::Idle, MachineState::Done(span)) => {
                if cannot_follow(next) {
                    (CandidateView::resuming(), MachineState::Idle)
                } else {
                    fed.close(span, pos)
                }
            },
            _ => (fed, MachineState::Parsing),
        }
    }

    /// The machine after position `pos` of `input` was fed to it, and what it
    /// reports for that position.
    #[verifier::opaque]
    pub open spec fn step(self, input: Seq<u8>, pos: usize) -> (CandidateView, MachineState) {
        match self.state {
            State::Idle => self.step_idle(input, pos),
            State::Parsing => self.step_parsing(input, pos),
            State::ResumeAtBoundary => {
                if is_boundary_character(byte_at(input, pos as int)) {
                    (CandidateView::fresh(), MachineState::Idle)
                } else {
                    (self, MachineState::Idle)
                }
            },
        }
    }

    /// `lemma_step` for a machine that is outside of a candidate.
    proof fn lemma_step_idle(self, input: Seq<u8>, pos: usize)
        requires
            self.inv(pos as int),
            pos <= input.len() <= usize::MAX,
        ensures
            self.step_idle(input, pos).0.inv(pos + 1),
            self.step_idle(input, pos).1 matches MachineState::Done(span) ==> span.start
                <= span.end && span.end == pos && pos < input.len(),
            self.step_idle(input, pos).1 is Done ==> self.step_idle(input, pos).0
                == CandidateView::fresh(),
    {
        self.utility_machine.lemma_step(input, pos);
        self.variant_machine.lemma_step(input, pos);
    }

    /// `lemma_step` for a machine that is inside of a candidate.
    proof fn lemma_step_parsing(self, input: Seq<u8>, pos: usize)
        requires
            self.inv(pos as int),
            self.state == State::Parsing,
            pos <= input.len() <= usize::MAX,
        ensures
            self.step_parsing(input, pos).0.inv(pos + 1),
            self.step_parsing(input, pos).1 matches MachineState::Done(span) ==> span.start
                <= span.end && span.end == pos && pos < input.len(),
            self.step_parsing(input, pos).1 is Done ==> self.step_parsing(input, pos).0
                == CandidateView::fresh(),
    {
        self.utility_machine.lemma_step(input, pos);
        self.variant_machine.lemma_step(input, pos);
    }

    /// Feeding positions in order keeps the machine consistent, and a span
    /// that it reports is a non-empty range of the input that ends at the
    /// position fed.
    /// Behind a report the machine is as it was constructed.
    pub proof fn lemma_step(self, input: Seq<u8>, pos: usize)
        requires
            self.inv(pos as int),
            pos <= input.len() <= usize::MAX,
        ensures
            self.step(input, pos).0.inv(pos + 1),
            self.step(input, pos).1 matches MachineState::Done(span) ==> span.start <= span.end
                && span.end == pos && pos < input.len(),
            self.step(input, pos).1 is Done ==> self.step(input, pos).0 == CandidateView::fresh(),
    {
        reveal(CandidateView::step);
        match self.state {
            State::Idle => self.lemma_step_idle(input, pos),
            State::Parsing => self.lemma_step_parsing(input, pos),
            State::ResumeAtBoundary => {},
        }
    }
}

impl Default for CandidateMachine {
    fn default() -> (machine: Self)
        ensures
            machine@ == CandidateView::fresh(),
    {
        CandidateMachine::new()
    }
}

impl CandidateMachine {
    /// A machine that has read nothing yet.
    pub fn new() -> (machine: Self)
        ensures
            machine@ == CandidateView::fresh(),
    {
        CandidateMachine {
            start_pos: 0,
            last_variant_end_pos: None,
            state: State::Idle,
            utility_machine: UtilityMachine::new(),
            variant_machine: VariantMachine::new(),
        }
    }

    /// Puts the machine back into the state it was constructed in.
    pub fn reset(&mut self)
        ensures
            final(self)@ == CandidateView::fresh(),
    {
        *self = CandidateMachine::new();
    }

    fn restart(&mut self) -> (state: MachineState)
        ensures
            final(self)@ == CandidateView::fresh(),
            state == MachineState::Idle,
    {
        self.reset();
        MachineState::Idle
    }

    fn done(&mut self, start: usize, cursor: &Cursor<'_>) -> (state: MachineState)
        ensures
            final(self)@ == CandidateView::fresh(),
            state == MachineState::Done(Span { start, end: cursor.pos }),
    {
        self.reset();
        MachineState::Done(Span::new(start, cursor.pos))
    }

    fn start_parsing(&mut self, start_pos: usize) -> (state: MachineState)
        ensures
            final(self)@ == (CandidateView { start_pos, state: State::Parsing, ..old(self)@ }),
            state == MachineState::Parsing,
    {
        self.start_pos = start_pos;
        self.state = State::Parsing;
        MachineState::Parsing
    }

    fn resume_at_boundary(&mut self) -> (state: MachineState)
        ensures
            final(self)@ == CandidateView::resuming(),
            state == MachineState::Idle,
    {
        self.reset();
        self.state = State::ResumeAtBoundary;
        MachineState::Idle
    }

    /// Ends the candidate with the utility `span`.
    fn close(&mut self, span: Span, cursor: &Cursor<'_>) -> (state: MachineState)
        requires
            old(self)@.last_variant_end_pos matches Some(end_pos) ==> end_pos < cursor.pos,
            cursor.wf(),
        ensures
            (final(self)@, state) == old(self)@.close(span, cursor.pos),
    {
        if let Some(end_pos) = self.last_variant_end_pos {
            if span.start == end_pos + 1 {
                // There is a variant, and the utility touches it.
                return self.done(self.start_pos, cursor);
            }
        }
        // There is no variant, or the utility stands apart from it.
        self.reset();
        MachineState::Done(span)
    }

    /// Feeds one position outside of a candidate to the machine.
    fn next_when_idle(&mut self, cursor: &Cursor<'_>) -> (state: MachineState)
        requires
            cursor.wf(),
            old(self)@.inv(cursor.pos as int),
        ensures
            (final(self)@, state) == old(self)@.step_idle(cursor.input@, cursor.pos),
    {
        let curr = cursor.curr;
        if (curr == DASH && cursor.next == DASH) || curr == LESS_THAN || curr == SLASH {
            // Candidates do not start with `--`, `<` or `/`.
            return self.resume_at_boundary();
        }
        let variant = self.variant_machine.next(cursor);
        let utility = self.utility_machine.next(cursor);
        match (variant, utility) {
            // A utility of a single byte.
            (_, MachineState::Done(span)) => {
                self.reset();
                MachineState::Done(span)
            },
            (MachineState::Parsing, _) => self.start_parsing(cursor.pos),
            (_, MachineState::Parsing) => self.start_parsing(cursor.pos),
            _ => MachineState::Idle,
        }
    }

    /// Feeds one position inside of a candidate to the machine.
    fn next_when_parsing(&mut self, cursor: &Cursor<'_>) -> (state: MachineState)
        requires
            cursor.wf(),
            old(self)@.inv(cursor.pos as int),
        ensures
            (final(self)@, state) == old(self)@.step_parsing(cursor.input@, cursor.pos),
    {
        let variant = self.variant_machine.next(cursor);
        let utility = self.utility_machine.next(cursor);
        match (variant, utility) {
            (MachineState::Idle, MachineState::Idle) => self.restart(),
            // A variant is complete. It has to touch the variant before it.
            // Both machines start anew for the next variant or the utility.
            (MachineState::Done(span), _) => {
                if let Some(end_pos) = self.last_variant_end_pos {
                    if span.start != end_pos + 1 {
                        return self.resume_at_boundary();
                    }
                }
                self.last_variant_end_pos = Some(cursor.pos);
                self.variant_machine.reset();
                self.utility_machine.reset();
                MachineState::Parsing
            },
            (MachineState::Parsing, MachineState::Done(span)) => {
                if cursor.next == COLON {
                    // What looks like a utility is the name of a variant,
                    // unless it is the key of an object: `{ underline: true }`.
                    let len = cursor.input.len();
                    let key = self.last_variant_end_pos.is_none() && len - cursor.pos > 2
                        && is_whitespace(cursor.input[cursor.pos + 2]);
                    if key {
                        self.done(self.start_pos, cursor)
                    } else {
                        self.utility_machine.reset();
                        MachineState::Parsing
                    }
                } else if cannot_follow(cursor.next) {
                    self.resume_at_boundary()
                } else {
                    self.close(span, cursor)
                }
            },
            (MachineState::Idle, MachineState::Done(span)) => {
                if cannot_follow(cursor.next) {
                    self.resume_at_boundary()
                } else {
                    self.close(span, cursor)
                }
            },
            _ => MachineState::Parsing,
        }
    }

    /// Feeds the position of `cursor` to the machine.
    pub fn next(&mut self, cursor: &Cursor<'_>) -> (state: MachineState)
        requires
            cursor.wf(),
            old(self)@.inv(cursor.pos as int),
        ensures
            (final(self)@, state) == old(self)@.step(cursor.input@, cursor.pos),
            final(self)@.inv(cursor.pos + 1),
            state matches MachineState::Done(span) ==> span.start <= span.end && span.end
                == cursor.pos && cursor.pos < cursor.input@.len(),
            state is Done ==> final(self)@ == CandidateView::fresh(),
    {
        proof {
            reveal(CandidateView::step);
            old(self)@.lemma_step(cursor.input@, cursor.pos);
        }
        match self.state {
            State::Idle => self.next_when_idle(cursor),
            State::Parsing => self.next_when_parsing(cursor),
            State::ResumeAtBoundary => {
                if is_boundary_character(cursor.curr) {
                    self.reset();
                }
                MachineState::Idle
            },
        }
    }
}

impl CandidateView {
    /// A candidate ends as a utility ends.
    pub proof fn lemma_done_at(self, input: Seq<u8>, pos: usize)
        ensures
            self.step(input, pos).1 is Done ==> ends_utility(byte_at(input, pos as int)),
    {
        reveal(CandidateView::step);
        self.utility_machine.lemma_done_at(input, pos);
    }
}

} // verus!
