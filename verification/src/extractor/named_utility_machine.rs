//! Named utilities: `flex`, `bg-red-500`, `px-2.5`, `bg-[#0cc]`, `bg-(--c)`.

use vstd::prelude::*;
use crate::cursor::{byte_at, Cursor};
use crate::extractor::arbitrary_value_machine::{ArbitraryValueMachine, ArbitraryValueView};
use crate::extractor::arbitrary_variable_machine::{
    ArbitraryVariableMachine, ArbitraryVariableView,
};
use crate::extractor::bytes::{
    is_alnum, is_alpha, is_digit, is_lower, is_whitespace, AT, DASH, DOT, OPEN_BRACKET,
    OPEN_PAREN, UNDERSCORE,
};
use crate::extractor::machine::{MachineState, Span};

verus! {

/// What `is_joiner` computes.
pub open spec fn spec_is_joiner(byte: u8) -> bool {
    byte == DASH || byte == UNDERSCORE
}

/// `-` or `_`, which join the segments of a name.
#[verifier::when_used_as_spec(spec_is_joiner)]
pub fn is_joiner(byte: u8) -> (yes: bool)
    ensures
        yes == spec_is_joiner(byte),
{
    byte == DASH || byte == UNDERSCORE
}

/// What `may_follow` computes.
pub open spec fn spec_may_follow(byte: u8) -> bool {
    is_alnum(byte) || byte == DASH || byte == UNDERSCORE || byte == DOT
}

/// A byte after which a name may still go on: a letter, a digit, `-`, `_`
/// or `.`.
#[verifier::when_used_as_spec(spec_may_follow)]
pub fn may_follow(byte: u8) -> (yes: bool)
    ensures
        yes == spec_may_follow(byte),
{
    is_alnum(byte) || byte == DASH || byte == UNDERSCORE || byte == DOT
}

/// What `leads_number` computes.
pub open spec fn spec_leads_number(byte: u8) -> bool {
    byte == DASH || byte == DOT || is_digit(byte)
}

/// A byte that may stand before a digit: `-`, `.` or another digit.
#[verifier::when_used_as_spec(spec_leads_number)]
pub fn leads_number(byte: u8) -> (yes: bool)
    ensures
        yes == spec_leads_number(byte),
{
    byte == DASH || byte == DOT || is_digit(byte)
}

/// Where the machine stands in a named utility.
#[derive(Debug, Clone, Copy, PartialEq, Eq, Structural)]
pub enum State {
    Idle,
    /// Inside the name of the utility.
    Parsing,
    /// Inside the arbitrary value of a functional utility: `text-[...]`.
    ParsingArbitraryValue,
    /// Inside the arbitrary variable of a functional utility:
    /// `text-(--my-color)`.
    ParsingArbitraryVariable,
}

/// Recognizes a named utility, such as `bg-red-500`.
#[derive(Debug)]
pub struct NamedUtilityMachine {
    /// Start position of the utility.
    start_pos: usize,
    /// Current state of the machine.
    state: State,
    arbitrary_variable_machine: ArbitraryVariableMachine,
    arbitrary_value_machine: ArbitraryValueMachine,
}

/// The named utility machine as specifications see it.
pub struct NamedUtilityView {
    pub start_pos: usize,
    pub state: State,
    pub arbitrary_variable_machine: ArbitraryVariableView,
    pub arbitrary_value_machine: ArbitraryValueView,
}

impl View for NamedUtilityMachine {
    type V = NamedUtilityView;

    closed spec fn view(&self) -> NamedUtilityView {
        NamedUtilityView {
            start_pos: self.start_pos,
            state: self.state,
            arbitrary_variable_machine: self.arbitrary_variable_machine@,
            arbitrary_value_machine: self.arbitrary_value_machine@,
        }
    }
}

impl NamedUtilityView {
    /// The machine as it is constructed and after every reset.
    pub open spec fn fresh() -> NamedUtilityView {
        NamedUtilityView {
            start_pos: 0,
            state: State::Idle,
            arbitrary_variable_machine: ArbitraryVariableView::fresh(),
            arbitrary_value_machine: ArbitraryValueView::fresh(),
        }
    }

    /// Holds when all positions fed so far lie before `pos`.
    pub open spec fn inv(self, pos: int) -> bool {
        &&& self.arbitrary_value_machine.inv(pos)
        &&& self.arbitrary_variable_machine.inv(pos)
        &&& self.state != State::Idle ==> self.start_pos < pos
    }

    /// What the machine does with a `Done` or `Idle` of the machine that it
    /// delegates to.
    pub open spec fn finish(self, inner: MachineState, pos: usize) -> (
        NamedUtilityView,
        MachineState,
    ) {
        match inner {
            MachineState::Idle => (NamedUtilityView::fresh(), MachineState::Idle),
            MachineState::Parsing => (self, MachineState::Parsing),
            MachineState::Done(_) => (
                NamedUtilityView::fresh(),
                MachineState::Done(Span { start: self.start_pos, end: pos }),
            ),
        }
    }

    /// The step of the machine at the first byte of a utility.
    pub open spec fn step_idle(self, input: Seq<u8>, pos: usize) -> (
        NamedUtilityView,
        MachineState,
    ) {
        let curr = byte_at(input, pos as int);
        let next = byte_at(input, pos + 1);
        let at_end = pos + 1 >= input.len();
        if is_lower(curr) && (is_whitespace(next) || at_end) {
            (NamedUtilityView::fresh(), MachineState::Done(Span { start: pos, end: pos }))
        } else if is_lower(curr) || curr == AT || (curr == DASH && is_alpha(next)) {
            (
                NamedUtilityView { start_pos: pos, state: State::Parsing, ..self },
                MachineState::Parsing,
            )
        } else {
            (self, MachineState::Idle)
        }
    }

    /// The step of the machine inside the name of a utility.
    pub open spec fn step_name(self, input: Seq<u8>, pos: usize) -> (
        NamedUtilityView,
        MachineState,
    ) {
        let prev = byte_at(input, pos - 1);
        let curr = byte_at(input, pos as int);
        let next = byte_at(input, pos + 1);
        let done = (
            NamedUtilityView::fresh(),
            MachineState::Done(Span { start: self.start_pos, end: pos }),
        );
        if curr == DASH && next == OPEN_BRACKET {
            (
                NamedUtilityView { state: State::ParsingArbitraryValue, ..self },
                MachineState::Parsing,
            )
        } else if curr == DASH && next == OPEN_PAREN {
            (
                NamedUtilityView { state: State::ParsingArbitraryVariable, ..self },
                MachineState::Parsing,
            )
        } else if is_joiner(curr) && (is_alnum(next) || is_joiner(next)) {
            (self, MachineState::Parsing)
        } else if is_digit(prev) && curr == DOT && is_digit(next) {
            (self, MachineState::Parsing)
        } else if leads_number(prev) && is_digit(curr) {
            if next == DOT || is_alnum(next) {
                (self, MachineState::Parsing)
            } else {
                done
            }
        } else if curr == UNDERSCORE || is_alpha(curr) {
            if may_follow(next) {
                (self, MachineState::Parsing)
            } else {
                done
            }
        } else {
            (NamedUtilityView::fresh(), MachineState::Idle)
        }
    }

    /// The machine after position `pos` of `input` was fed to it, and what it
    /// reports for that position.
    #[verifier::opaque]
    pub open spec fn step(self, input: Seq<u8>, pos: usize) -> (NamedUtilityView, MachineState) {
        match self.state {
            State::Idle => self.step_idle(input, pos),
            State::Parsing => self.step_name(input, pos),
            State::ParsingArbitraryValue => {
                let (arbitrary_value_machine, inner) = self.arbitrary_value_machine.step(
                    input,
                    pos,
                );
                (NamedUtilityView { arbitrary_value_machine, ..self }).finish(inner, pos)
            },
            State::ParsingArbitraryVariable => {
                let (arbitrary_variable_machine, inner) = self.arbitrary_variable_machine.step(
                    input,
                    pos,
                );
                (NamedUtilityView { arbitrary_variable_machine, ..self }).finish(inner, pos)
            },
        }
    }

    /// Feeding positions in order keeps the machine consistent, and a span
    /// that it reports is a non-empty range of the input that ends at the
    /// position fed.
    /// Behind a report the machine is as it was constructed.
    pub proof fn lemma_step(self, input: Seq<u8>, pos: usize)
        requires
            self.inv(pos as int),
            pos <= input.len() <= usize::MAX,
        ensures
            self.step(input, pos).0.inv(pos + 1),
            self.step(input, pos).1 matches MachineState::Done(span) ==> span.start <= span.end
                && span.end == pos && pos < input.len(),
            self.step(input, pos).1 is Done ==> self.step(input, pos).0 == NamedUtilityView::fresh(),
    {
        reveal(NamedUtilityView::step);
        self.arbitrary_value_machine.lemma_step(input, pos);
        self.arbitrary_variable_machine.lemma_step(input, pos);
    }
}

impl Default for NamedUtilityMachine {
    fn default() -> (machine: Self)
        ensures
            machine@ == NamedUtilityView::fresh(),
    {
        NamedUtilityMachine::new()
    }
}

impl NamedUtilityMachine {
    /// A machine that has read nothing yet.
    pub fn new() -> (machine: Self)
        ensures
            machine@ == NamedUtilityView::fresh(),
    {
        NamedUtilityMachine {
            start_pos: 0,
            state: State::Idle,
            arbitrary_variable_machine: ArbitraryVariableMachine::new(),
            arbitrary_value_machine: ArbitraryValueMachine::new(),
        }
    }

    /// Puts the machine back into the state it was constructed in.
    pub fn reset(&mut self)
        ensures
            final(self)@ == NamedUtilityView::fresh(),
    {
        *self = NamedUtilityMachine::new();
    }

    fn restart(&mut self) -> (state: MachineState)
        ensures
            final(self)@ == NamedUtilityView::fresh(),
            state == MachineState::Idle,
    {
        self.reset();
        MachineState::Idle
    }

    fn done(&mut self, start: usize, cursor: &Cursor<'_>) -> (state: MachineState)
        ensures
            final(self)@ == NamedUtilityView::fresh(),
            state == MachineState::Done(Span { start, end: cursor.pos }),
    {
        self.reset();
        MachineState::Done(Span::new(start, cursor.pos))
    }

    fn parse(&mut self, cursor: &Cursor<'_>) -> (state: MachineState)
        ensures
            final(self)@ == (NamedUtilityView {
                start_pos: cursor.pos,
                state: State::Parsing,
                ..old(self)@
            }),
            state == MachineState::Parsing,
    {
        self.start_pos = cursor.pos;
        self.state = State::Parsing;
        MachineState::Parsing
    }

    fn parse_arbitrary_value(&mut self) -> (state: MachineState)
        ensures
            final(self)@ == (NamedUtilityView {
                state: State::ParsingArbitraryValue,
                ..old(self)@
            }),
            state == MachineState::Parsing,
    {
        self.state = State::ParsingArbitraryValue;
        MachineState::Parsing
    }

    fn parse_arbitrary_variable(&mut self) -> (state: MachineState)
        ensures
            final(self)@ == (NamedUtilityView {
                state: State::ParsingArbitraryVariable,
                ..old(self)@
            }),
            state == MachineState::Parsing,
    {
        self.state = State::ParsingArbitraryVariable;
        MachineState::Parsing
    }

    /// Feeds one position of the name of the utility to the machine.
    fn next_in_name(&mut self, cursor: &Cursor<'_>) -> (state: MachineState)
        requires
            cursor.wf(),
            old(self)@.state == State::Parsing,
        ensures
            (final(self)@, state) == old(self)@.step_name(cursor.input@, cursor.pos),
    {
        let prev = cursor.prev;
        let curr = cursor.curr;
        let next = cursor.next;
        if curr == DASH && next == OPEN_BRACKET {
            self.parse_arbitrary_value()
        } else if curr == DASH && next == OPEN_PAREN {
            self.parse_arbitrary_variable()
        } else if is_joiner(curr) && (is_alnum(next) || is_joiner(next)) {
            // Valid inside of the utility, but not at its end: `flex-`,
            // `flex-!` and `flex-/` are no utilities.
            MachineState::Parsing
        } else if is_digit(prev) && curr == DOT && is_digit(next) {
            // A dot must be surrounded by digits: `px-2.5`.
            MachineState::Parsing
        } else if leads_number(prev) && is_digit(curr) {
            // A digit must be preceded by `-`, `.` or another digit, and
            // a `.`, a digit or a letter may follow: `text-2xs`, `p-2.5`.
            if next == DOT || is_alnum(next) {
                MachineState::Parsing
            } else {
                self.done(self.start_pos, cursor)
            }
        } else if curr == UNDERSCORE || is_alpha(curr) {
            if may_follow(next) {
                MachineState::Parsing
            } else {
                // Followed by a byte that cannot go on: `flex#`.
                self.done(self.start_pos, cursor)
            }
        } else {
            self.restart()
        }
    }

    /// Feeds the position of `cursor` to the machine.
    pub fn next(&mut self, cursor: &Cursor<'_>) -> (state: MachineState)
        requires
            cursor.wf(),
            old(self)@.inv(cursor.pos as int),
        ensures
            (final(self)@, state) == old(self)@.step(cursor.input@, cursor.pos),
            final(self)@.inv(cursor.pos + 1),
            state matches MachineState::Done(span) ==> span.start <= span.end && span.end
                == cursor.pos && cursor.pos < cursor.input@.len(),
            state is Done ==> final(self)@ == NamedUtilityView::fresh(),
    {
        proof {
            reveal(NamedUtilityView::step);
            old(self)@.lemma_step(cursor.input@, cursor.pos);
        }
        match self.state {
            State::Idle => {
                let curr = cursor.curr;
                let next = cursor.next;
                if is_lower(curr) && (is_whitespace(next) || cursor.at_end) {
                    // A utility of a single letter, which must be followed
                    // by whitespace or the end of the input.
                    self.done(cursor.pos, cursor)
                } else if is_lower(curr) || curr == AT {
                    self.parse(cursor)
                } else if curr == DASH && is_alpha(next) {
                    // A negative utility: `-mx-2.5`.
                    self.parse(cursor)
                } else {
                    MachineState::Idle
                }
            },
            State::Parsing => self.next_in_name(cursor),
            State::ParsingArbitraryValue => match self.arbitrary_value_machine.next(cursor) {
                MachineState::Idle => self.restart(),
                MachineState::Parsing => MachineState::Parsing,
                MachineState::Done(_) => self.done(self.start_pos, cursor),
            },
            State::ParsingArbitraryVariable => match self.arbitrary_variable_machine.next(cursor) {
                MachineState::Idle => self.restart(),
                MachineState::Parsing => MachineState::Parsing,
                MachineState::Done(_) => self.done(self.start_pos, cursor),
            },
        }
    }
}

/// Up to `upto` the bytes hold neither `[` nor `(`: there the name of the
/// utility has not ended yet.
pub open spec fn in_name_part(bytes: Seq<u8>, upto: int) -> bool {
    forall|j: int|
        0 <= j <= upto && j < bytes.len() ==> #[trigger] bytes[j] != OPEN_BRACKET && bytes[j]
            != OPEN_PAREN
}

/// If the byte at `at` is a dot, it stands between two digits; if it is a
/// digit, it follows `-`, `.` or another digit.
pub open spec fn well_placed(bytes: Seq<u8>, at: int) -> bool {
    &&& bytes[at] == DOT ==> 0 < at < bytes.len() - 1 && is_digit(bytes[at - 1]) && is_digit(
        bytes[at + 1],
    )
    &&& is_digit(bytes[at]) ==> 0 < at && leads_number(bytes[at - 1])
}

/// In the name of the utility all dots and digits are well placed.
pub open spec fn has_well_placed_numbers(bytes: Seq<u8>) -> bool {
    forall|at: int|
        0 <= at < bytes.len() && in_name_part(bytes, at) ==> #[trigger] well_placed(bytes, at)
}

/// No `[` and no `(` stands at the positions of `input` from `from` up
/// to `upto`.
pub open spec fn unbracketed(input: Seq<u8>, from: int, upto: int) -> bool {
    forall|j: int|
        from <= j <= upto ==> #[trigger] byte_at(input, j) != OPEN_BRACKET && byte_at(input, j)
            != OPEN_PAREN
}

/// `well_placed` for the byte at `at` of a utility that starts at `from`
/// and has not ended yet.
pub open spec fn placed(input: Seq<u8>, from: int, at: int) -> bool {
    &&& byte_at(input, at) == DOT ==> from < at && is_digit(byte_at(input, at - 1)) && is_digit(
        byte_at(input, at + 1),
    )
    &&& is_digit(byte_at(input, at)) ==> from < at && leads_number(byte_at(input, at - 1))
}

/// The dots and digits from `from` up to `upto` are well placed, as far
/// as the name goes.
pub open spec fn placed_upto(input: Seq<u8>, from: int, upto: int) -> bool {
    forall|at: int|
        from <= at <= upto && unbracketed(input, from, at) ==> #[trigger] placed(input, from, at)
}

impl NamedUtilityView {
    /// The machine after the first `n` positions of `input` were fed to it.
    pub open spec fn after(input: Seq<u8>, n: nat) -> NamedUtilityView
        decreases n,
    {
        if n == 0 {
            NamedUtilityView::fresh()
        } else {
            NamedUtilityView::after(input, (n - 1) as nat).step(input, (n - 1) as usize).0
        }
    }

    /// The spans that the machine reports for the first `n` positions of
    /// `input`.
    pub open spec fn reports(input: Seq<u8>, n: nat) -> Seq<Span>
        decreases n,
    {
        if n == 0 {
            Seq::empty()
        } else {
            NamedUtilityView::reports(input, (n - 1) as nat) + NamedUtilityView::after(
                input,
                (n - 1) as nat,
            ).step(input, (n - 1) as usize).1.found()
        }
    }

    /// In what the machine has read of a utility, all dots and digits of
    /// the name are well placed.
    pub open spec fn traced(self, input: Seq<u8>, pos: int) -> bool {
        &&& self.inv(pos)
        &&& self.state != State::Idle ==> {
            let start = self.start_pos as int;
            &&& placed_upto(input, start, pos - 1)
            &&& self.state == State::Parsing ==> unbracketed(input, start, pos - 1)
            &&& self.state != State::Parsing ==> !unbracketed(input, start, pos)
        }
    }

    /// Feeding a position keeps the dots and digits well placed, also in a
    /// span that is reported.
    pub proof fn lemma_step_traced(self, input: Seq<u8>, pos: usize)
        requires
            self.traced(input, pos as int),
            pos <= input.len() <= usize::MAX,
        ensures
            self.step(input, pos).0.traced(input, pos + 1),
            self.step(input, pos).1 matches MachineState::Done(span) ==> span.start <= span.end
                == pos < input.len() && placed_upto(input, span.start as int, pos as int) && (
            unbracketed(input, span.start as int, pos as int) ==> input[pos as int] != DOT),
    {
        reveal(NamedUtilityView::step);
        self.lemma_step(input, pos);
        let (machine, state) = self.step(input, pos);
        let start = self.start_pos as int;
        match self.state {
            State::Idle => {
                if machine.state != State::Idle || state is Done {
                    assert(placed(input, pos as int, pos as int));
                }
            },
            State::Parsing => {
                if machine.state == State::ParsingArbitraryValue || machine.state
                    == State::ParsingArbitraryVariable {
                    assert(byte_at(input, pos + 1) == OPEN_BRACKET || byte_at(input, pos + 1)
                        == OPEN_PAREN);
                }
                assert(placed(input, start, pos as int) || machine.state == State::Idle);
            },
            _ => {
                assert(placed_upto(input, start, pos as int));
            },
        }
    }

    /// However far the input was fed, the dots and digits that the machine
    /// has read in a name are well placed.
    pub proof fn lemma_after_traced(input: Seq<u8>, n: nat)
        requires
            n <= input.len() <= usize::MAX,
        ensures
            NamedUtilityView::after(input, n).traced(input, n as int),
        decreases n,
    {
        if n > 0 {
            NamedUtilityView::lemma_after_traced(input, (n - 1) as nat);
            NamedUtilityView::after(input, (n - 1) as nat).lemma_step_traced(
                input,
                (n - 1) as usize,
            );
        }
    }

    /// In the name of every utility that the machine reports, which goes
    /// up to the first `[` or `(`, a dot stands between two digits, and a
    /// digit follows `-`, `.` or another digit.
    pub proof fn lemma_reports_well_placed_numbers(input: Seq<u8>, n: nat)
        requires
            n <= input.len() <= usize::MAX,
        ensures
            forall|j: int|
                0 <= j < NamedUtilityView::reports(input, n).len() ==> {
                    let span = #[trigger] NamedUtilityView::reports(input, n)[j];
                    span.fits(n) && has_well_placed_numbers(span.of(input))
                },
        decreases n,
    {
        if n > 0 {
            let before = (n - 1) as nat;
            NamedUtilityView::lemma_reports_well_placed_numbers(input, before);
            NamedUtilityView::lemma_after_traced(input, before);
            let machine = NamedUtilityView::after(input, before);
            machine.lemma_step_traced(input, before as usize);
            let earlier = NamedUtilityView::reports(input, before);
            let all = NamedUtilityView::reports(input, n);
            assert forall|j: int| 0 <= j < all.len() implies {
                let span = #[trigger] all[j];
                span.fits(n) && has_well_placed_numbers(span.of(input))
            } by {
                if j < earlier.len() {
                    assert(all[j] == earlier[j]);
                } else {
                    lemma_well_placed_in_span(input, all[j]);
                }
            }
        }
    }
}

/// What holds of the positions of a span holds of its bytes.
proof fn lemma_well_placed_in_span(input: Seq<u8>, span: Span)
    requires
        span.fits(input.len()),
        placed_upto(input, span.start as int, span.end as int),
        unbracketed(input, span.start as int, span.end as int) ==> input[span.end as int] != DOT,
    ensures
        has_well_placed_numbers(span.of(input)),
{
    let bytes = span.of(input);
    let start = span.start as int;
    assert forall|at: int| 0 <= at < bytes.len() && in_name_part(bytes, at) implies
        #[trigger] well_placed(bytes, at) by {
        assert forall|j: int| start <= j <= start + at implies #[trigger] byte_at(input, j)
            != OPEN_BRACKET && byte_at(input, j) != OPEN_PAREN by {
            assert(bytes[j - start] == input[j]);
        }
        assert(unbracketed(input, start, start + at));
        assert(placed(input, start, start + at));
        assert(bytes[at] == input[start + at]);
        if bytes[at] == DOT {
            if start + at == span.end {
                assert forall|j: int| start <= j <= span.end implies #[trigger] byte_at(
                    input,
                    j,
                ) != OPEN_BRACKET && byte_at(input, j) != OPEN_PAREN by {
                    assert(bytes[j - start] == input[j]);
                }
            }
            assert(bytes[at - 1] == input[start + at - 1]);
            assert(bytes[at + 1] == input[start + at + 1]);
        }
        if is_digit(bytes[at]) {
            assert(bytes[at - 1] == input[start + at - 1]);
        }
    }
}

impl NamedUtilityView {
    /// Whenever the machine, fed from the first position on, reports a
    /// span, the span ends at the position fed, and in the name of the
    /// utility all dots and digits are well placed.
    pub proof fn lemma_done_has_well_placed_numbers(input: Seq<u8>, pos: usize)
        requires
            pos < input.len() <= usize::MAX,
        ensures
            NamedUtilityView::after(input, pos as nat).step(input, pos).1 matches MachineState::Done(
                span,
            ) ==> span.start <= span.end == pos && has_well_placed_numbers(span.of(input)),
    {
        NamedUtilityView::lemma_after_traced(input, pos as nat);
        NamedUtilityView::after(input, pos as nat).lemma_step_traced(input, pos);
        match NamedUtilityView::after(input, pos as nat).step(input, pos).1 {
            MachineState::Done(span) => {
                lemma_well_placed_in_span(input, span);
            },
            _ => {},
        }
    }
}

} // verus!
