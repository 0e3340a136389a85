//! Named variants: `hover:`, `group-hover/name:`, `data-[x=y]:`,
//! `supports-(--x):`.

use vstd::prelude::*;
use crate::cursor::{byte_at, Cursor};
use crate::extractor::arbitrary_value_machine::{ArbitraryValueMachine, ArbitraryValueView};
use crate::extractor::arbitrary_variable_machine::{
    ArbitraryVariableMachine, ArbitraryVariableView,
};
use crate::extractor::bytes::{
    is_alnum, is_digit, is_lower, AT, COLON, DASH, OPEN_BRACKET, OPEN_PAREN, SLASH, STAR,
    UNDERSCORE,
};
use crate::extractor::machine::{MachineState, Span};
use crate::extractor::modifier_machine::{ModifierMachine, ModifierView};
use crate::extractor::named_utility_machine::is_joiner;

verus! {

/// What `is_short_variant` computes.
pub open spec fn spec_is_short_variant(byte: u8) -> bool {
    is_lower(byte) || byte == STAR || byte == DASH || byte == UNDERSCORE
}

/// A byte that is a variant on its own when a `:` follows it.
#[verifier::when_used_as_spec(spec_is_short_variant)]
pub fn is_short_variant(byte: u8) -> (yes: bool)
    ensures
        yes == spec_is_short_variant(byte),
{
    is_lower(byte) || byte == STAR || byte == DASH || byte == UNDERSCORE
}

/// What `starts_variant` computes.
pub open spec fn spec_starts_variant(byte: u8) -> bool {
    is_lower(byte) || is_digit(byte) || byte == STAR || byte == DASH || byte == UNDERSCORE
        || byte == AT
}

/// A byte that may be the first of a named variant.
#[verifier::when_used_as_spec(spec_starts_variant)]
pub fn starts_variant(byte: u8) -> (yes: bool)
    ensures
        yes == spec_starts_variant(byte),
{
    is_lower(byte) || is_digit(byte) || byte == STAR || byte == DASH || byte == UNDERSCORE
        || byte == AT
}

/// Where the machine stands in a named variant.
#[derive(Debug, Clone, Copy, PartialEq, Eq, Structural)]
pub enum State {
    Idle,
    /// Inside the name of the variant.
    Parsing,
    /// Inside the arbitrary value of a functional variant: `data-[...]`.
    ParsingArbitraryValue,
    /// Inside the arbitrary variable of a functional variant:
    /// `supports-(--my-color)`.
    ParsingArbitraryVariable,
    /// Inside the modifier: `group-hover/name:`, from the `/` on.
    ParsingModifier,
    /// At the byte that has to be the `:` that ends the variant.
    ParseEnd,
}

/// Recognizes a named variant, such as `hover:`.
#[derive(Debug)]
pub struct NamedVariantMachine {
    /// Start position of the variant.
    start_pos: usize,
    /// Current state of the machine.
    state: State,
    arbitrary_variable_machine: ArbitraryVariableMachine,
    arbitrary_value_machine: ArbitraryValueMachine,
    modifier_machine: ModifierMachine,
}

/// The named variant machine as specifications see it.
pub struct NamedVariantView {
    pub start_pos: usize,
    pub state: State,
    pub arbitrary_variable_machine: ArbitraryVariableView,
    pub arbitrary_value_machine: ArbitraryValueView,
    pub modifier_machine: ModifierView,
}

impl View for NamedVariantMachine {
    type V = NamedVariantView;

    closed spec fn view(&self) -> NamedVariantView {
        NamedVariantView {
            start_pos: self.start_pos,
            state: self.state,
            arbitrary_variable_machine: self.arbitrary_variable_machine@,
            arbitrary_value_machine: self.arbitrary_value_machine@,
            modifier_machine: self.modifier_machine@,
        }
    }
}

impl NamedVariantView {
    /// The machine as it is constructed and after every reset.
    pub open spec fn fresh() -> NamedVariantView {
        NamedVariantView {
            start_pos: 0,
            state: State::Idle,
            arbitrary_variable_machine: ArbitraryVariableView::fresh(),
            arbitrary_value_machine: ArbitraryValueView::fresh(),
            modifier_machine: ModifierView::fresh(),
        }
    }

    /// Holds when all positions fed so far lie before `pos`.
    pub open spec fn inv(self, pos: int) -> bool {
        &&& self.arbitrary_value_machine.inv(pos)
        &&& self.arbitrary_variable_machine.inv(pos)
        &&& self.modifier_machine.inv(pos)
        &&& self.state != State::Idle ==> self.start_pos < pos
    }

    /// What the machine does once the machine that it delegates to has
    /// reported `inner`: after an arbitrary value or variable a modifier or
    /// the closing `:` can follow, after a modifier only the `:`.
    pub open spec fn finish(self, inner: MachineState, next: u8, modifier_allowed: bool) -> (
        NamedVariantView,
        MachineState,
    ) {
        match inner {
            MachineState::Idle => (NamedVariantView::fresh(), MachineState::Idle),
            MachineState::Parsing => (self, MachineState::Parsing),
            MachineState::Done(_) => {
                if next == SLASH && modifier_allowed {
                    (
                        NamedVariantView { state: State::ParsingModifier, ..self },
                        MachineState::Parsing,
                    )
                } else if next == COLON {
                    (NamedVariantView { state: State::ParseEnd, ..self }, MachineState::Parsing)
                } else {
                    (NamedVariantView::fresh(), MachineState::Idle)
                }
            },
        }
    }

    /// The step of the machine inside the name of a variant.
    pub open spec fn step_name(self, input: Seq<u8>, pos: usize) -> (
        NamedVariantView,
        MachineState,
    ) {
        let curr = byte_at(input, pos as int);
        let next = byte_at(input, pos + 1);
        if curr == DASH && next == OPEN_BRACKET {
            (
                NamedVariantView { state: State::ParsingArbitraryValue, ..self },
                MachineState::Parsing,
            )
        } else if curr == DASH && next == OPEN_PAREN {
            (
                NamedVariantView { state: State::ParsingArbitraryVariable, ..self },
                MachineState::Parsing,
            )
        } else if is_joiner(curr) && (is_joiner(next) || is_alnum(next)) {
            (self, MachineState::Parsing)
        } else if curr == UNDERSCORE || is_alnum(curr) || curr == STAR {
            (self, MachineState::Parsing)
        } else if curr == SLASH {
            (
                NamedVariantView {
                    modifier_machine: self.modifier_machine.step(input, pos).0,
                    state: State::ParsingModifier,
                    ..self
                },
                MachineState::Parsing,
            )
        } else if curr == COLON {
            (
                NamedVariantView::fresh(),
                MachineState::Done(Span { start: self.start_pos, end: pos }),
            )
        } else {
            (NamedVariantView::fresh(), MachineState::Idle)
        }
    }

    /// The machine after position `pos` of `input` was fed to it, and what it
    /// reports for that position.
    #[verifier::opaque]
    pub open spec fn step(self, input: Seq<u8>, pos: usize) -> (NamedVariantView, MachineState) {
        let curr = byte_at(input, pos as int);
        let next = byte_at(input, pos + 1);
        match self.state {
            State::Idle => {
                if is_short_variant(curr) && next == COLON {
                    (
                        NamedVariantView { start_pos: pos, state: State::ParseEnd, ..self },
                        MachineState::Parsing,
                    )
                } else if starts_variant(curr) {
                    (
                        NamedVariantView { start_pos: pos, state: State::Parsing, ..self },
                        MachineState::Parsing,
                    )
                } else {
                    (self, MachineState::Idle)
                }
            },
            State::Parsing => self.step_name(input, pos),
            State::ParsingArbitraryValue => {
                let (arbitrary_value_machine, inner) = self.arbitrary_value_machine.step(
                    input,
                    pos,
                );
                (NamedVariantView { arbitrary_value_machine, ..self }).finish(inner, next, true)
            },
            State::ParsingArbitraryVariable => {
                let (arbitrary_variable_machine, inner) = self.arbitrary_variable_machine.step(
                    input,
                    pos,
                );
                (NamedVariantView { arbitrary_variable_machine, ..self }).finish(
                    inner,
                    next,
                    true,
                )
            },
            State::ParsingModifier => {
                let (modifier_machine, inner) = self.modifier_machine.step(input, pos);
                (NamedVariantView { modifier_machine, ..self }).finish(inner, next, false)
            },
            State::ParseEnd => {
                if curr == COLON {
                    (
                        NamedVariantView::fresh(),
                        MachineState::Done(Span { start: self.start_pos, end: pos }),
                    )
                } else {
                    (NamedVariantView::fresh(), MachineState::Idle)
                }
            },
        }
    }

    /// Feeding positions in order keeps the machine consistent, and a span
    /// that it reports is a range of the input of at least two bytes that
    /// ends at the position fed.
    /// Behind a report the machine is as it was constructed.
    pub proof fn lemma_step(self, input: Seq<u8>, pos: usize)
        requires
            self.inv(pos as int),
            pos <= input.len() <= usize::MAX,
        ensures
            self.step(input, pos).0.inv(pos + 1),
            self.step(input, pos).1 matches MachineState::Done(span) ==> span.start < span.end
                && span.end == pos && pos < input.len(),
            self.step(input, pos).1 is Done ==> self.step(input, pos).0 == NamedVariantView::fresh(),
    {
        reveal(NamedVariantView::step);
        self.arbitrary_value_machine.lemma_step(input, pos);
        self.arbitrary_variable_machine.lemma_step(input, pos);
        self.modifier_machine.lemma_step(input, pos);
    }
}

impl Default for NamedVariantMachine {
    fn default() -> (machine: Self)
        ensures
            machine@ == NamedVariantView::fresh(),
    {
        NamedVariantMachine::new()
    }
}

impl NamedVariantMachine {
    /// A machine that has read nothing yet.
    pub fn new() -> (machine: Self)
        ensures
            machine@ == NamedVariantView::fresh(),
    {
        NamedVariantMachine {
            start_pos: 0,
            state: State::Idle,
            arbitrary_variable_machine: ArbitraryVariableMachine::new(),
            arbitrary_value_machine: ArbitraryValueMachine::new(),
            modifier_machine: ModifierMachine::new(),
        }
    }

    /// Puts the machine back into the state it was constructed in.
    pub fn reset(&mut self)
        ensures
            final(self)@ == NamedVariantView::fresh(),
    {
        *self = NamedVariantMachine::new();
    }

    fn restart(&mut self) -> (state: MachineState)
        ensures
            final(self)@ == NamedVariantView::fresh(),
            state == MachineState::Idle,
    {
        self.reset();
        MachineState::Idle
    }

    fn done(&mut self, start: usize, cursor: &Cursor<'_>) -> (state: MachineState)
        ensures
            final(self)@ == NamedVariantView::fresh(),
            state == MachineState::Done(Span { start, end: cursor.pos }),
    {
        self.reset();
        MachineState::Done(Span::new(start, cursor.pos))
    }

    fn parse(&mut self, cursor: &Cursor<'_>) -> (state: MachineState)
        ensures
            final(self)@ == (NamedVariantView {
                start_pos: cursor.pos,
                state: State::Parsing,
                ..old(self)@
            }),
            state == MachineState::Parsing,
    {
        self.start_pos = cursor.pos;
        self.state = State::Parsing;
        MachineState::Parsing
    }

    fn parse_arbitrary_value(&mut self) -> (state: MachineState)
        ensures
            final(self)@ == (NamedVariantView {
                state: State::ParsingArbitraryValue,
                ..old(self)@
            }),
            state == MachineState::Parsing,
    {
        self.state = State::ParsingArbitraryValue;
        MachineState::Parsing
    }

    fn parse_arbitrary_variable(&mut self) -> (state: MachineState)
        ensures
            final(self)@ == (NamedVariantView {
                state: State::ParsingArbitraryVariable,
                ..old(self)@
            }),
            state == MachineState::Parsing,
    {
        self.state = State::ParsingArbitraryVariable;
        MachineState::Parsing
    }

    fn parse_modifier(&mut self) -> (state: MachineState)
        ensures
            final(self)@ == (NamedVariantView { state: State::ParsingModifier, ..old(self)@ }),
            state == MachineState::Parsing,
    {
        self.state = State::ParsingModifier;
        MachineState::Parsing
    }

    fn parse_end(&mut self) -> (state: MachineState)
        ensures
            final(self)@ == (NamedVariantView { state: State::ParseEnd, ..old(self)@ }),
            state == MachineState::Parsing,
    {
        self.state = State::ParseEnd;
        MachineState::Parsing
    }

    /// Goes on after an arbitrary value or variable is complete: a modifier
    /// or the closing `:` has to follow.
    fn after_arbitrary(&mut self, cursor: &Cursor<'_>) -> (state: MachineState)
        ensures
            (final(self)@, state) == old(self)@.finish(
                MachineState::Done(Span { start: 0, end: 0 }),
                cursor.next,
                true,
            ),
    {
        if cursor.next == SLASH {
            self.parse_modifier()
        } else if cursor.next == COLON {
            self.parse_end()
        } else {
            self.restart()
        }
    }

    /// Feeds one position of the name of the variant to the machine.
    fn next_in_name(&mut self, cursor: &Cursor<'_>) -> (state: MachineState)
        requires
            cursor.wf(),
            old(self)@.inv(cursor.pos as int),
            old(self)@.state == State::Parsing,
        ensures
            (final(self)@, state) == old(self)@.step_name(cursor.input@, cursor.pos),
    {
        let curr = cursor.curr;
        let next = cursor.next;
        if curr == DASH && next == OPEN_BRACKET {
            self.parse_arbitrary_value()
        } else if curr == DASH && next == OPEN_PAREN {
            self.parse_arbitrary_variable()
        } else if is_joiner(curr) && (is_joiner(next) || is_alnum(next)) {
            // Valid inside of the variant, but not at its end: `hover-`.
            MachineState::Parsing
        } else if curr == UNDERSCORE || is_alnum(curr) || curr == STAR {
            MachineState::Parsing
        } else if curr == SLASH {
            // The end of the name; a modifier may follow:
            // `group-hover/name:`.
            self.modifier_machine.next(cursor);
            self.parse_modifier()
        } else if curr == COLON {
            self.done(self.start_pos, cursor)
        } else {
            self.restart()
        }
    }

    /// Feeds the position of `cursor` to the machine.
    pub fn next(&mut self, cursor: &Cursor<'_>) -> (state: MachineState)
        requires
            cursor.wf(),
            old(self)@.inv(cursor.pos as int),
        ensures
            (final(self)@, state) == old(self)@.step(cursor.input@, cursor.pos),
            final(self)@.inv(cursor.pos + 1),
            state matches MachineState::Done(span) ==> span.start < span.end && span.end
                == cursor.pos && cursor.pos < cursor.input@.len(),
            state is Done ==> final(self)@ == NamedVariantView::fresh(),
    {
        proof {
            reveal(NamedVariantView::step);
            old(self)@.lemma_step(cursor.input@, cursor.pos);
        }
        match self.state {
            State::Idle => {
                if is_short_variant(cursor.curr) && cursor.next == COLON {
                    // A variant of a single byte: `x:`, `*:`.
                    self.start_pos = cursor.pos;
                    self.parse_end()
                } else if starts_variant(cursor.curr) {
                    self.parse(cursor)
                } else {
                    MachineState::Idle
                }
            },
            State::Parsing => self.next_in_name(cursor),
            State::ParsingArbitraryValue => match self.arbitrary_value_machine.next(cursor) {
                MachineState::Idle => self.restart(),
                MachineState::Parsing => MachineState::Parsing,
                MachineState::Done(_) => self.after_arbitrary(cursor),
            },
            State::ParsingArbitraryVariable => match self.arbitrary_variable_machine.next(cursor) {
                MachineState::Idle => self.restart(),
                MachineState::Parsing => MachineState::Parsing,
                MachineState::Done(_) => self.after_arbitrary(cursor),
            },
            State::ParsingModifier => match self.modifier_machine.next(cursor) {
                MachineState::Idle => self.restart(),
                MachineState::Parsing => MachineState::Parsing,
                MachineState::Done(_) => {
                    if cursor.next == COLON {
                        // A modifier must be followed by the `:`.
                        self.parse_end()
                    } else {
                        self.restart()
                    }
                },
            },
            State::ParseEnd => {
                if cursor.curr == COLON {
                    self.done(self.start_pos, cursor)
                } else {
                    self.restart()
                }
            },
        }
    }
}

impl NamedVariantView {
    /// A named variant ends with `:`.
    pub proof fn lemma_done_at(self, input: Seq<u8>, pos: usize)
        ensures
            self.step(input, pos).1 is Done ==> byte_at(input, pos as int) == COLON,
    {
        reveal(NamedVariantView::step);
    }
}

} // verus!
