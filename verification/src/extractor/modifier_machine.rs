//! Modifiers: `/name`, `/[value]` and `/(--variable)`.

use vstd::prelude::*;
use crate::cursor::{byte_at, Cursor};
use crate::extractor::arbitrary_value_machine::{ArbitraryValueMachine, ArbitraryValueView};
use crate::extractor::arbitrary_variable_machine::{
    ArbitraryVariableMachine, ArbitraryVariableView,
};
use crate::extractor::bytes::{
    is_alnum, CLOSE_BRACKET, CLOSE_PAREN, DASH, DOT, OPEN_BRACKET, OPEN_PAREN, SLASH, UNDERSCORE,
};
use crate::extractor::machine::{MachineState, Span};

verus! {

/// What `in_named_modifier` computes.
pub open spec fn spec_in_named_modifier(byte: u8) -> bool {
    is_alnum(byte) || byte == DASH || byte == UNDERSCORE || byte == DOT
}

/// A byte that may stand in a named modifier: a letter, a digit, `-`, `_`
/// or `.`.
#[verifier::when_used_as_spec(spec_in_named_modifier)]
pub fn in_named_modifier(byte: u8) -> (yes: bool)
    ensures
        yes == spec_in_named_modifier(byte),
{
    is_alnum(byte) || byte == DASH || byte == UNDERSCORE || byte == DOT
}

/// Where the machine stands in a modifier.
#[derive(Debug, Clone, Copy, PartialEq, Eq, Structural)]
pub enum State {
    Idle,
    /// Inside a named modifier: `bg-red-500/20`, from the `/` on.
    ParsingNamed,
    /// Inside an arbitrary value: `bg-red-500/[20%]`, from the `/` on.
    ParsingArbitraryValue,
    /// Inside an arbitrary variable: `bg-red-500/(--my-opacity)`.
    ParsingArbitraryVariable,
}

/// Recognizes a modifier, such as `/20`.
#[derive(Debug)]
pub struct ModifierMachine {
    /// Start position of the modifier.
    start_pos: usize,
    /// Current state of the machine.
    state: State,
    arbitrary_value_machine: ArbitraryValueMachine,
    arbitrary_variable_machine: ArbitraryVariableMachine,
}

/// The modifier machine as specifications see it.
pub struct ModifierView {
    pub start_pos: usize,
    pub state: State,
    pub arbitrary_value_machine: ArbitraryValueView,
    pub arbitrary_variable_machine: ArbitraryVariableView,
}

impl View for ModifierMachine {
    type V = ModifierView;

    closed spec fn view(&self) -> ModifierView {
        ModifierView {
            start_pos: self.start_pos,
            state: self.state,
            arbitrary_value_machine: self.arbitrary_value_machine@,
            arbitrary_variable_machine: self.arbitrary_variable_machine@,
        }
    }
}

impl ModifierView {
    /// The machine as it is constructed and after every reset.
    pub open spec fn fresh() -> ModifierView {
        ModifierView {
            start_pos: 0,
            state: State::Idle,
            arbitrary_value_machine: ArbitraryValueView::fresh(),
            arbitrary_variable_machine: ArbitraryVariableView::fresh(),
        }
    }

    /// Holds when all positions fed so far lie before `pos`.
    pub open spec fn inv(self, pos: int) -> bool {
        &&& self.arbitrary_value_machine.inv(pos)
        &&& self.arbitrary_variable_machine.inv(pos)
        &&& self.state != State::Idle ==> self.start_pos < pos
    }

    /// What the machine does with a `Done` or `Idle` of the machine that it
    /// delegates to.
    pub open spec fn finish(self, inner: MachineState, pos: usize) -> (ModifierView, MachineState) {
        match inner {
            MachineState::Idle => (ModifierView::fresh(), MachineState::Idle),
            MachineState::Parsing => (self, MachineState::Parsing),
            MachineState::Done(_) => (
                ModifierView::fresh(),
                MachineState::Done(Span { start: self.start_pos, end: pos }),
            ),
        }
    }

    /// The machine after position `pos` of `input` was fed to it, and what it
    /// reports for that position.
    #[verifier::opaque]
    pub open spec fn step(self, input: Seq<u8>, pos: usize) -> (ModifierView, MachineState) {
        let curr = byte_at(input, pos as int);
        let next = byte_at(input, pos + 1);
        match self.state {
            State::Idle => {
                if curr == SLASH && next == OPEN_BRACKET {
                    (
                        ModifierView {
                            start_pos: pos,
                            state: State::ParsingArbitraryValue,
                            ..self
                        },
                        MachineState::Parsing,
                    )
                } else if curr == SLASH && next == OPEN_PAREN {
                    (
                        ModifierView {
                            start_pos: pos,
                            state: State::ParsingArbitraryVariable,
                            ..self
                        },
                        MachineState::Parsing,
                    )
                } else if curr == SLASH && is_alnum(next) {
                    (
                        ModifierView { start_pos: pos, state: State::ParsingNamed, ..self },
                        MachineState::Parsing,
                    )
                } else {
                    (self, MachineState::Idle)
                }
            },
            State::ParsingNamed => {
                if in_named_modifier(curr) && in_named_modifier(next) {
                    (self, MachineState::Parsing)
                } else if in_named_modifier(curr) {
                    (
                        ModifierView::fresh(),
                        MachineState::Done(Span { start: self.start_pos, end: pos }),
                    )
                } else {
                    (ModifierView::fresh(), MachineState::Idle)
                }
            },
            State::ParsingArbitraryValue => {
                let (arbitrary_value_machine, inner) = self.arbitrary_value_machine.step(
                    input,
                    pos,
                );
                (ModifierView { arbitrary_value_machine, ..self }).finish(inner, pos)
            },
            State::ParsingArbitraryVariable => {
                let (arbitrary_variable_machine, inner) = self.arbitrary_variable_machine.step(
                    input,
                    pos,
                );
                (ModifierView { arbitrary_variable_machine, ..self }).finish(inner, pos)
            },
        }
    }

    /// Feeding positions in order keeps the machine consistent, and a span
    /// that it reports is a range of the input of at least two bytes that
    /// ends at the position fed.
    /// Behind a report the machine is as it was constructed.
    pub proof fn lemma_step(self, input: Seq<u8>, pos: usize)
        requires
            self.inv(pos as int),
            pos <= input.len() <= usize::MAX,
        ensures
            self.step(input, pos).0.inv(pos + 1),
            self.step(input, pos).1 matches MachineState::Done(span) ==> span.start < span.end
                && span.end == pos && pos < input.len(),
            self.step(input, pos).1 is Done ==> self.step(input, pos).0 == ModifierView::fresh(),
    {
        reveal(ModifierView::step);
        self.arbitrary_value_machine.lemma_step(input, pos);
        self.arbitrary_variable_machine.lemma_step(input, pos);
    }
}

impl Default for ModifierMachine {
    fn default() -> (machine: Self)
        ensures
            machine@ == ModifierView::fresh(),
    {
        ModifierMachine::new()
    }
}

impl ModifierMachine {
    /// A machine that has read nothing yet.
    pub fn new() -> (machine: Self)
        ensures
            machine@ == ModifierView::fresh(),
    {
        ModifierMachine {
            start_pos: 0,
            state: State::Idle,
            arbitrary_value_machine: ArbitraryValueMachine::new(),
            arbitrary_variable_machine: ArbitraryVariableMachine::new(),
        }
    }

    /// Puts the machine back into the state it was constructed in.
    pub fn reset(&mut self)
        ensures
            final(self)@ == ModifierView::fresh(),
    {
        *self = ModifierMachine::new();
    }

    fn restart(&mut self) -> (state: MachineState)
        ensures
            final(self)@ == ModifierView::fresh(),
            state == MachineState::Idle,
    {
        self.reset();
        MachineState::Idle
    }

    fn done(&mut self, start: usize, cursor: &Cursor<'_>) -> (state: MachineState)
        ensures
            final(self)@ == ModifierView::fresh(),
            state == MachineState::Done(Span { start, end: cursor.pos }),
    {
        self.reset();
        MachineState::Done(Span::new(start, cursor.pos))
    }

    fn parse_arbitrary_value(&mut self, cursor: &Cursor<'_>) -> (state: MachineState)
        ensures
            final(self)@ == (ModifierView {
                start_pos: cursor.pos,
                state: State::ParsingArbitraryValue,
                ..old(self)@
            }),
            state == MachineState::Parsing,
    {
        self.start_pos = cursor.pos;
        self.state = State::ParsingArbitraryValue;
        MachineState::Parsing
    }

    fn parse_arbitrary_variable(&mut self, cursor: &Cursor<'_>) -> (state: MachineState)
        ensures
            final(self)@ == (ModifierView {
                start_pos: cursor.pos,
                state: State::ParsingArbitraryVariable,
                ..old(self)@
            }),
            state == MachineState::Parsing,
    {
        self.start_pos = cursor.pos;
        self.state = State::ParsingArbitraryVariable;
        MachineState::Parsing
    }

    fn parse_named(&mut self, cursor: &Cursor<'_>) -> (state: MachineState)
        ensures
            final(self)@ == (ModifierView {
                start_pos: cursor.pos,
                state: State::ParsingNamed,
                ..old(self)@
            }),
            state == MachineState::Parsing,
    {
        self.start_pos = cursor.pos;
        self.state = State::ParsingNamed;
        MachineState::Parsing
    }

    /// Feeds the position of `cursor` to the machine.
    pub fn next(&mut self, cursor: &Cursor<'_>) -> (state: MachineState)
        requires
            cursor.wf(),
            old(self)@.inv(cursor.pos as int),
        ensures
            (final(self)@, state) == old(self)@.step(cursor.input@, cursor.pos),
            final(self)@.inv(cursor.pos + 1),
            state matches MachineState::Done(span) ==> span.start < span.end && span.end
                == cursor.pos && cursor.pos < cursor.input@.len(),
            state is Done ==> final(self)@ == ModifierView::fresh(),
    {
        proof {
            reveal(ModifierView::step);
            old(self)@.lemma_step(cursor.input@, cursor.pos);
        }
        match self.state {
            State::Idle => {
                if cursor.curr == SLASH && cursor.next == OPEN_BRACKET {
                    self.parse_arbitrary_value(cursor)
                } else if cursor.curr == SLASH && cursor.next == OPEN_PAREN {
                    self.parse_arbitrary_variable(cursor)
                } else if cursor.curr == SLASH && is_alnum(cursor.next) {
                    self.parse_named(cursor)
                } else {
                    MachineState::Idle
                }
            },
            State::ParsingNamed => {
                if in_named_modifier(cursor.curr) && in_named_modifier(cursor.next) {
                    MachineState::Parsing
                } else if in_named_modifier(cursor.curr) {
                    // A valid byte at the end of the modifier.
                    self.done(self.start_pos, cursor)
                } else {
                    self.restart()
                }
            },
            State::ParsingArbitraryValue => match self.arbitrary_value_machine.next(cursor) {
                MachineState::Idle => self.restart(),
                MachineState::Parsing => MachineState::Parsing,
                MachineState::Done(_) => self.done(self.start_pos, cursor),
            },
            State::ParsingArbitraryVariable => match self.arbitrary_variable_machine.next(cursor) {
                MachineState::Idle => self.restart(),
                MachineState::Parsing => MachineState::Parsing,
                MachineState::Done(_) => self.done(self.start_pos, cursor),
            },
        }
    }
}

impl ModifierView {
    /// A modifier ends with a byte of a named modifier, with `]` or with
    /// `)`.
    pub proof fn lemma_done_at(self, input: Seq<u8>, pos: usize)
        ensures
            self.step(input, pos).1 is Done ==> {
                let last = byte_at(input, pos as int);
                in_named_modifier(last) || last == CLOSE_BRACKET || last == CLOSE_PAREN
            },
    {
        reveal(ModifierView::step);
        self.arbitrary_value_machine.lemma_done_at(input, pos);
        self.arbitrary_variable_machine.lemma_done_at(input, pos);
    }
}

} // verus!
