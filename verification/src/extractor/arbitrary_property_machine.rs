//! Arbitrary properties: `[property:value]`.

use vstd::prelude::*;
use crate::cursor::{byte_at, Cursor};
use crate::extractor::bytes::{
    closer_of, is_alpha, is_close_bracket, is_open_bracket, is_quote, is_whitespace, BACKSLASH,
    CLOSE_BRACKET, COLON, DASH, OPEN_BRACKET,
};
use crate::extractor::css_variable_machine::CssVariableMachine;
use crate::extractor::machine::{MachineState, Span};
use crate::extractor::string_machine::StringMachine;

verus! {

/// Where the machine stands in an arbitrary property.
#[derive(Debug, Clone, Copy, PartialEq, Eq, Structural)]
pub enum State {
    Idle,
    /// Inside the name of the property: `[color:red]`, before the `:`.
    ParsingProperty,
    /// Inside a property that is a CSS variable: `[--my-color:red]`.
    ParsingPropertyVariable,
    /// Inside the value: `[color:red]`, after the `:`.
    ParsingValue,
    /// Inside a string in the value, where brackets need not be balanced.
    ParsingString,
}

/// Recognizes an arbitrary property, such as `[color:red]`.
#[derive(Debug)]
pub struct ArbitraryPropertyMachine {
    /// Start position of the arbitrary property.
    start_pos: usize,
    /// The closing brackets that are still expected, innermost last.
    bracket_stack: Vec<u8>,
    /// Ignore the bytes before this position.
    skip_until_pos: Option<usize>,
    /// Current state of the machine.
    state: State,
    css_variable_machine: CssVariableMachine,
    string_machine: StringMachine,
}

/// The arbitrary property machine as specifications see it.
pub struct ArbitraryPropertyView {
    pub start_pos: usize,
    pub bracket_stack: Seq<u8>,
    pub skip_until_pos: Option<usize>,
    pub state: State,
    pub css_variable_machine: CssVariableMachine,
    pub string_machine: StringMachine,
}

impl View for ArbitraryPropertyMachine {
    type V = ArbitraryPropertyView;

    closed spec fn view(&self) -> ArbitraryPropertyView {
        ArbitraryPropertyView {
            start_pos: self.start_pos,
            bracket_stack: self.bracket_stack@,
            skip_until_pos: self.skip_until_pos,
            state: self.state,
            css_variable_machine: self.css_variable_machine,
            string_machine: self.string_machine,
        }
    }
}

impl ArbitraryPropertyView {
    /// The machine as it is constructed and after every reset.
    pub open spec fn fresh() -> ArbitraryPropertyView {
        ArbitraryPropertyView {
            start_pos: 0,
            bracket_stack: Seq::empty(),
            skip_until_pos: None,
            state: State::Idle,
            css_variable_machine: CssVariableMachine::fresh(),
            string_machine: StringMachine::fresh(),
        }
    }

    /// Holds when all positions fed so far lie before `pos`. No more
    /// brackets are open than bytes were read.
    pub open spec fn inv(self, pos: int) -> bool {
        &&& self.bracket_stack.len() <= pos
        &&& self.string_machine.inv(pos)
        &&& self.css_variable_machine.inv(pos)
        &&& self.state != State::Idle ==> self.start_pos < pos
    }

    /// The step of the machine while it reads the name of the property.
    pub open spec fn step_property(self, input: Seq<u8>, pos: usize) -> (
        ArbitraryPropertyView,
        MachineState,
    ) {
        let curr = byte_at(input, pos as int);
        let next = byte_at(input, pos + 1);
        if curr == DASH && next == DASH {
            (
                ArbitraryPropertyView {
                    css_variable_machine: self.css_variable_machine.step(input, pos).0,
                    state: State::ParsingPropertyVariable,
                    ..self
                },
                MachineState::Parsing,
            )
        } else if is_alpha(curr) || curr == DASH {
            (self, MachineState::Parsing)
        } else if curr == COLON && pos > self.start_pos + 1 {
            (ArbitraryPropertyView { state: State::ParsingValue, ..self }, MachineState::Parsing)
        } else {
            (ArbitraryPropertyView::fresh(), MachineState::Idle)
        }
    }

    /// The step of the machine while it reads the value of the property.
    pub open spec fn step_value(self, input: Seq<u8>, pos: usize) -> (
        ArbitraryPropertyView,
        MachineState,
    ) {
        let curr = byte_at(input, pos as int);
        let next = byte_at(input, pos + 1);
        let at_end = pos + 1 >= input.len();
        if curr == BACKSLASH && is_whitespace(next) {
            (ArbitraryPropertyView::fresh(), MachineState::Idle)
        } else if curr == BACKSLASH && !at_end {
            (
                ArbitraryPropertyView { skip_until_pos: Some((pos + 2) as usize), ..self },
                MachineState::Parsing,
            )
        } else if is_open_bracket(curr) {
            (
                ArbitraryPropertyView {
                    bracket_stack: self.bracket_stack.push(closer_of(curr)),
                    ..self
                },
                MachineState::Parsing,
            )
        } else if is_close_bracket(curr) && self.bracket_stack.len() > 0 {
            if self.bracket_stack.last() == curr {
                (
                    ArbitraryPropertyView {
                        bracket_stack: self.bracket_stack.drop_last(),
                        ..self
                    },
                    MachineState::Parsing,
                )
            } else {
                (ArbitraryPropertyView::fresh(), MachineState::Idle)
            }
        } else if curr == CLOSE_BRACKET {
            if self.start_pos + 1 != pos {
                (
                    ArbitraryPropertyView::fresh(),
                    MachineState::Done(Span { start: self.start_pos, end: pos }),
                )
            } else {
                (ArbitraryPropertyView::fresh(), MachineState::Idle)
            }
        } else if is_quote(curr) {
            (
                ArbitraryPropertyView {
                    string_machine: self.string_machine.step(input, pos).0,
                    state: State::ParsingString,
                    ..self
                },
                MachineState::Parsing,
            )
        } else if curr == COLON && self.bracket_stack.len() == 0 {
            (ArbitraryPropertyView::fresh(), MachineState::Idle)
        } else if is_whitespace(curr) {
            (ArbitraryPropertyView::fresh(), MachineState::Idle)
        } else {
            (self, MachineState::Parsing)
        }
    }

    /// The machine after position `pos` of `input` was fed to it, and what it
    /// reports for that position.
    #[verifier::opaque]
    pub open spec fn step(self, input: Seq<u8>, pos: usize) -> (
        ArbitraryPropertyView,
        MachineState,
    ) {
        let curr = byte_at(input, pos as int);
        let next = byte_at(input, pos + 1);
        if self.skip_until_pos matches Some(skip) && pos < skip {
            (self, MachineState::Parsing)
        } else {
            let woken = ArbitraryPropertyView { skip_until_pos: None, ..self };
            match self.state {
                State::Idle => {
                    if curr == OPEN_BRACKET {
                        (
                            ArbitraryPropertyView {
                                start_pos: pos,
                                state: State::ParsingProperty,
                                ..woken
                            },
                            MachineState::Parsing,
                        )
                    } else {
                        (woken, MachineState::Idle)
                    }
                },
                State::ParsingProperty => woken.step_property(input, pos),
                State::ParsingPropertyVariable => {
                    let (css_variable_machine, css_state) = self.css_variable_machine.step(
                        input,
                        pos,
                    );
                    match css_state {
                        MachineState::Idle => (ArbitraryPropertyView::fresh(), MachineState::Idle),
                        MachineState::Parsing => (
                            ArbitraryPropertyView { css_variable_machine, ..woken },
                            MachineState::Parsing,
                        ),
                        MachineState::Done(_) => {
                            if next == COLON {
                                (
                                    ArbitraryPropertyView {
                                        css_variable_machine,
                                        skip_until_pos: Some((pos + 2) as usize),
                                        state: State::ParsingValue,
                                        ..woken
                                    },
                                    MachineState::Parsing,
                                )
                            } else {
                                (ArbitraryPropertyView::fresh(), MachineState::Idle)
                            }
                        },
                    }
                },
                State::ParsingValue => woken.step_value(input, pos),
                State::ParsingString => {
                    let (string_machine, string_state) = self.string_machine.step(input, pos);
                    match string_state {
                        MachineState::Idle => (ArbitraryPropertyView::fresh(), MachineState::Idle),
                        MachineState::Parsing => (
                            ArbitraryPropertyView { string_machine, ..woken },
                            MachineState::Parsing,
                        ),
                        MachineState::Done(_) => (
                            ArbitraryPropertyView {
                                string_machine,
                                state: State::ParsingValue,
                                ..woken
                            },
                            MachineState::Parsing,
                        ),
                    }
                },
            }
        }
    }

    /// Feeding positions in order keeps the machine consistent, and a span
    /// that it reports is a range of the input of at least three bytes that
    /// ends at the position fed.
    /// Behind a report the machine is as it was constructed.
    pub proof fn lemma_step(self, input: Seq<u8>, pos: usize)
        requires
            self.inv(pos as int),
            pos <= input.len() <= usize::MAX,
        ensures
            self.step(input, pos).0.inv(pos + 1),
            self.step(input, pos).1 matches MachineState::Done(span) ==> span.start + 1 < span.end
                && span.end == pos && pos < input.len(),
            self.step(input, pos).1 is Done ==> self.step(input, pos).0 == ArbitraryPropertyView::fresh(),
    {
        reveal(ArbitraryPropertyView::step);
        self.string_machine.lemma_step(input, pos);
        self.css_variable_machine.lemma_step(input, pos);
    }
}

impl Default for ArbitraryPropertyMachine {
    fn default() -> (machine: Self)
        ensures
            machine@ == ArbitraryPropertyView::fresh(),
    {
        ArbitraryPropertyMachine::new()
    }
}

impl ArbitraryPropertyMachine {
    /// A machine that has read nothing yet.
    pub fn new() -> (machine: Self)
        ensures
            machine@ == ArbitraryPropertyView::fresh(),
    {
        ArbitraryPropertyMachine {
            start_pos: 0,
            bracket_stack: Vec::new(),
            skip_until_pos: None,
            state: State::Idle,
            css_variable_machine: CssVariableMachine::new(),
            string_machine: StringMachine::new(),
        }
    }

    /// Puts the machine back into the state it was constructed in.
    pub fn reset(&mut self)
        ensures
            final(self)@ == ArbitraryPropertyView::fresh(),
    {
        *self = ArbitraryPropertyMachine::new();
    }

    fn restart(&mut self) -> (state: MachineState)
        ensures
            final(self)@ == ArbitraryPropertyView::fresh(),
            state == MachineState::Idle,
    {
        self.reset();
        MachineState::Idle
    }

    fn done(&mut self, start: usize, cursor: &Cursor<'_>) -> (state: MachineState)
        ensures
            final(self)@ == ArbitraryPropertyView::fresh(),
            state == MachineState::Done(Span { start, end: cursor.pos }),
    {
        self.reset();
        MachineState::Done(Span::new(start, cursor.pos))
    }

    fn parse_string(&mut self, cursor: &Cursor<'_>) -> (state: MachineState)
        requires
            cursor.wf(),
            old(self)@.string_machine.inv(cursor.pos as int),
        ensures
            final(self)@ == (ArbitraryPropertyView {
                string_machine: old(self)@.string_machine.step(cursor.input@, cursor.pos).0,
                state: State::ParsingString,
                ..old(self)@
            }),
            state == MachineState::Parsing,
    {
        self.string_machine.next(cursor);
        self.state = State::ParsingString;
        MachineState::Parsing
    }

    fn parse_property(&mut self) -> (state: MachineState)
        ensures
            final(self)@ == (ArbitraryPropertyView { state: State::ParsingProperty, ..old(self)@ }),
            state == MachineState::Parsing,
    {
        self.state = State::ParsingProperty;
        MachineState::Parsing
    }

    fn parse_property_variable(&mut self, cursor: &Cursor<'_>) -> (state: MachineState)
        requires
            cursor.wf(),
            old(self)@.css_variable_machine.inv(cursor.pos as int),
        ensures
            final(self)@ == (ArbitraryPropertyView {
                css_variable_machine: old(self)@.css_variable_machine.step(
                    cursor.input@,
                    cursor.pos,
                ).0,
                state: State::ParsingPropertyVariable,
                ..old(self)@
            }),
            state == MachineState::Parsing,
    {
        self.css_variable_machine.next(cursor);
        self.state = State::ParsingPropertyVariable;
        MachineState::Parsing
    }

    fn parse_value(&mut self) -> (state: MachineState)
        ensures
            final(self)@ == (ArbitraryPropertyView { state: State::ParsingValue, ..old(self)@ }),
            state == MachineState::Parsing,
    {
        self.state = State::ParsingValue;
        MachineState::Parsing
    }

    /// Feeds one position of the name of the property to the machine.
    fn next_in_property(&mut self, cursor: &Cursor<'_>) -> (state: MachineState)
        requires
            cursor.wf(),
            old(self)@.inv(cursor.pos as int),
            old(self)@.state == State::ParsingProperty,
        ensures
            (final(self)@, state) == old(self)@.step_property(cursor.input@, cursor.pos),
    {
        let curr = cursor.curr;
        if curr == DASH && cursor.next == DASH {
            // The property is a CSS variable.
            self.parse_property_variable(cursor)
        } else if is_alpha(curr) || curr == DASH {
            MachineState::Parsing
        } else if curr == COLON && cursor.pos > self.start_pos + 1 {
            // The end of the name, which has at least one byte.
            self.parse_value()
        } else {
            self.restart()
        }
    }

    /// Feeds one position of the value of the property to the machine.
    fn next_in_value(&mut self, cursor: &Cursor<'_>) -> (state: MachineState)
        requires
            cursor.wf(),
            old(self)@.inv(cursor.pos as int),
            old(self)@.state == State::ParsingValue,
        ensures
            (final(self)@, state) == old(self)@.step_value(cursor.input@, cursor.pos),
    {
        let curr = cursor.curr;
        if curr == BACKSLASH && is_whitespace(cursor.next) {
            // An escaped whitespace is not allowed.
            self.restart()
        } else if curr == BACKSLASH && !cursor.at_end {
            // An escaped byte is taken together with its backslash.
            self.skip_until_pos = Some(cursor.pos + 2);
            MachineState::Parsing
        } else if is_open_bracket(curr) {
            self.bracket_stack.push(closer_of(curr));
            MachineState::Parsing
        } else if is_close_bracket(curr) && !self.bracket_stack.is_empty() {
            let expected = self.bracket_stack[self.bracket_stack.len() - 1];
            if curr == expected {
                self.bracket_stack.pop();
                MachineState::Parsing
            } else {
                self.restart()
            }
        } else if curr == CLOSE_BRACKET {
            // The end of the property: all brackets are closed. There has
            // to be at least one byte between the outer brackets.
            if self.start_pos + 1 != cursor.pos {
                self.done(self.start_pos, cursor)
            } else {
                self.restart()
            }
        } else if is_quote(curr) {
            self.parse_string(cursor)
        } else if curr == COLON && self.bracket_stack.is_empty() {
            // Another `:` is only valid inside of brackets or of a string:
            // `[color:red:blue]` is not a property.
            self.restart()
        } else if is_whitespace(curr) {
            self.restart()
        } else {
            MachineState::Parsing
        }
    }

    /// Feeds the position of `cursor` to the machine.
    pub fn next(&mut self, cursor: &Cursor<'_>) -> (state: MachineState)
        requires
            cursor.wf(),
            old(self)@.inv(cursor.pos as int),
        ensures
            (final(self)@, state) == old(self)@.step(cursor.input@, cursor.pos),
            final(self)@.inv(cursor.pos + 1),
            state matches MachineState::Done(span) ==> span.start + 1 < span.end && span.end
                == cursor.pos && cursor.pos < cursor.input@.len(),
            state is Done ==> final(self)@ == ArbitraryPropertyView::fresh(),
    {
        proof {
            reveal(ArbitraryPropertyView::step);
            old(self)@.lemma_step(cursor.input@, cursor.pos);
        }
        match self.skip_until_pos {
            Some(skip_until) if cursor.pos < skip_until => return MachineState::Parsing,
            Some(_) => self.skip_until_pos = None,
            None => {},
        }

        match self.state {
            State::Idle => {
                if cursor.curr == OPEN_BRACKET {
                    self.start_pos = cursor.pos;
                    self.parse_property()
                } else {
                    MachineState::Idle
                }
            },
            State::ParsingProperty => self.next_in_property(cursor),
            State::ParsingPropertyVariable => match self.css_variable_machine.next(cursor) {
                MachineState::Idle => self.restart(),
                MachineState::Parsing => MachineState::Parsing,
                MachineState::Done(_) => {
                    if cursor.next == COLON {
                        // The variable is followed by the `:`, which is
                        // skipped: `[--my-color:red]`.
                        self.skip_until_pos = Some(cursor.pos + 2);
                        self.parse_value()
                    } else {
                        self.restart()
                    }
                },
            },
            State::ParsingValue => self.next_in_value(cursor),
            State::ParsingString => match self.string_machine.next(cursor) {
                MachineState::Idle => self.restart(),
                MachineState::Parsing => MachineState::Parsing,
                MachineState::Done(_) => self.parse_value(),
            },
        }
    }
}

impl ArbitraryPropertyView {
    /// An arbitrary property ends with `]`.
    pub proof fn lemma_done_at(self, input: Seq<u8>, pos: usize)
        ensures
            self.step(input, pos).1 is Done ==> byte_at(input, pos as int) == CLOSE_BRACKET,
    {
        reveal(ArbitraryPropertyView::step);
    }
}

} // verus!
