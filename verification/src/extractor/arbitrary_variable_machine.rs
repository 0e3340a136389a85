//! Arbitrary variables: `(--name)` and `(--name,fallback)`.

use vstd::prelude::*;
use crate::cursor::{byte_at, Cursor};
use crate::extractor::bytes::{
    closer_of, is_close_bracket, is_open_bracket, is_quote, is_whitespace, BACKSLASH,
    CLOSE_PAREN, COLON, COMMA, DASH, OPEN_PAREN,
};
use crate::extractor::css_variable_machine::CssVariableMachine;
use crate::extractor::machine::{MachineState, Span};
use crate::extractor::string_machine::StringMachine;

verus! {

/// Where the machine stands in an arbitrary variable.
#[derive(Debug, Clone, Copy, PartialEq, Eq, Structural)]
pub enum State {
    Idle,
    /// Inside the name of the variable: `(--my-opacity)`, after the `(`.
    Parsing,
    /// Inside the fallback: `(--my-opacity,50%)`, from the `,` on.
    ParsingFallback,
    /// Inside a string in the fallback, where brackets need not be balanced.
    ParsingString,
    /// At the byte after the name, which has to be `)`.
    ParsingEnd,
}

/// Recognizes an arbitrary variable, such as `(--my-color,red)`.
#[derive(Debug)]
pub struct ArbitraryVariableMachine {
    /// Start position of the arbitrary variable.
    start_pos: usize,
    /// The closing brackets that are still expected, innermost last.
    bracket_stack: Vec<u8>,
    /// Ignore the bytes before this position.
    skip_until_pos: Option<usize>,
    /// Current state of the machine.
    state: State,
    string_machine: StringMachine,
    css_variable_machine: CssVariableMachine,
}

/// The arbitrary variable machine as specifications see it.
pub struct ArbitraryVariableView {
    pub start_pos: usize,
    pub bracket_stack: Seq<u8>,
    pub skip_until_pos: Option<usize>,
    pub state: State,
    pub string_machine: StringMachine,
    pub css_variable_machine: CssVariableMachine,
}

impl View for ArbitraryVariableMachine {
    type V = ArbitraryVariableView;

    closed spec fn view(&self) -> ArbitraryVariableView {
        ArbitraryVariableView {
            start_pos: self.start_pos,
            bracket_stack: self.bracket_stack@,
            skip_until_pos: self.skip_until_pos,
            state: self.state,
            string_machine: self.string_machine,
            css_variable_machine: self.css_variable_machine,
        }
    }
}

impl ArbitraryVariableView {
    /// The machine as it is constructed and after every reset.
    pub open spec fn fresh() -> ArbitraryVariableView {
        ArbitraryVariableView {
            start_pos: 0,
            bracket_stack: Seq::empty(),
            skip_until_pos: None,
            state: State::Idle,
            string_machine: StringMachine::fresh(),
            css_variable_machine: CssVariableMachine::fresh(),
        }
    }

    /// Holds when all positions fed so far lie before `pos`. No more
    /// brackets are open than bytes were read.
    pub open spec fn inv(self, pos: int) -> bool {
        &&& self.bracket_stack.len() <= pos
        &&& self.string_machine.inv(pos)
        &&& self.css_variable_machine.inv(pos)
        &&& self.state != State::Idle ==> self.start_pos < pos
    }

    /// The step of the machine while it reads the fallback.
    pub open spec fn step_fallback(self, input: Seq<u8>, pos: usize) -> (
        ArbitraryVariableView,
        MachineState,
    ) {
        let curr = byte_at(input, pos as int);
        let next = byte_at(input, pos + 1);
        let at_end = pos + 1 >= input.len();
        if curr == BACKSLASH && is_whitespace(next) {
            (ArbitraryVariableView::fresh(), MachineState::Idle)
        } else if curr == BACKSLASH && !at_end {
            (
                ArbitraryVariableView { skip_until_pos: Some((pos + 2) as usize), ..self },
                MachineState::Parsing,
            )
        } else if is_open_bracket(curr) {
            (
                ArbitraryVariableView {
                    bracket_stack: self.bracket_stack.push(closer_of(curr)),
                    ..self
                },
                MachineState::Parsing,
            )
        } else if is_close_bracket(curr) && self.bracket_stack.len() > 0 {
            if self.bracket_stack.last() == curr {
                (
                    ArbitraryVariableView {
                        bracket_stack: self.bracket_stack.drop_last(),
                        ..self
                    },
                    MachineState::Parsing,
                )
            } else {
                (ArbitraryVariableView::fresh(), MachineState::Idle)
            }
        } else if curr == CLOSE_PAREN {
            (
                ArbitraryVariableView::fresh(),
                MachineState::Done(Span { start: self.start_pos, end: pos }),
            )
        } else if is_quote(curr) {
            (
                ArbitraryVariableView {
                    string_machine: self.string_machine.step(input, pos).0,
                    state: State::ParsingString,
                    ..self
                },
                MachineState::Parsing,
            )
        } else if curr == COLON && self.bracket_stack.len() == 0 {
            (ArbitraryVariableView::fresh(), MachineState::Idle)
        } else if is_whitespace(curr) {
            (ArbitraryVariableView::fresh(), MachineState::Idle)
        } else {
            (self, MachineState::Parsing)
        }
    }

    /// The machine after position `pos` of `input` was fed to it, and what it
    /// reports for that position.
    #[verifier::opaque]
    pub open spec fn step(self, input: Seq<u8>, pos: usize) -> (
        ArbitraryVariableView,
        MachineState,
    ) {
        let curr = byte_at(input, pos as int);
        let next = byte_at(input, pos + 1);
        if self.skip_until_pos matches Some(skip) && pos < skip {
            (self, MachineState::Parsing)
        } else {
            let woken = ArbitraryVariableView { skip_until_pos: None, ..self };
            match self.state {
                State::Idle => {
                    if curr == OPEN_PAREN && next == DASH {
                        (
                            ArbitraryVariableView {
                                start_pos: pos,
                                state: State::Parsing,
                                ..woken
                            },
                            MachineState::Parsing,
                        )
                    } else {
                        (woken, MachineState::Idle)
                    }
                },
                State::Parsing => {
                    let (css_variable_machine, css_state) = self.css_variable_machine.step(
                        input,
                        pos,
                    );
                    match css_state {
                        MachineState::Idle => (ArbitraryVariableView::fresh(), MachineState::Idle),
                        MachineState::Parsing => (
                            ArbitraryVariableView { css_variable_machine, ..woken },
                            MachineState::Parsing,
                        ),
                        MachineState::Done(_) => (
                            ArbitraryVariableView {
                                css_variable_machine,
                                state: if next == COMMA {
                                    State::ParsingFallback
                                } else {
                                    State::ParsingEnd
                                },
                                ..woken
                            },
                            MachineState::Parsing,
                        ),
                    }
                },
                State::ParsingFallback => woken.step_fallback(input, pos),
                State::ParsingString => {
                    let (string_machine, string_state) = self.string_machine.step(input, pos);
                    match string_state {
                        MachineState::Idle => (ArbitraryVariableView::fresh(), MachineState::Idle),
                        MachineState::Parsing => (
                            ArbitraryVariableView { string_machine, ..woken },
                            MachineState::Parsing,
                        ),
                        MachineState::Done(_) => (
                            ArbitraryVariableView {
                                string_machine,
                                state: State::ParsingFallback,
                                ..woken
                            },
                            MachineState::Parsing,
                        ),
                    }
                },
                State::ParsingEnd => {
                    if curr == CLOSE_PAREN {
                        (
                            ArbitraryVariableView::fresh(),
                            MachineState::Done(Span { start: self.start_pos, end: pos }),
                        )
                    } else {
                        (ArbitraryVariableView::fresh(), MachineState::Idle)
                    }
                },
            }
        }
    }

    /// Feeding positions in order keeps the machine consistent, and a span
    /// that it reports is a non-empty range of the input that ends at the
    /// position fed.
    /// Behind a report the machine is as it was constructed.
    pub proof fn lemma_step(self, input: Seq<u8>, pos: usize)
        requires
            self.inv(pos as int),
            pos <= input.len() <= usize::MAX,
        ensures
            self.step(input, pos).0.inv(pos + 1),
            self.step(input, pos).1 matches MachineState::Done(span) ==> span.start < span.end
                && span.end == pos && pos < input.len(),
            self.step(input, pos).1 is Done ==> self.step(input, pos).0 == ArbitraryVariableView::fresh(),
    {
        reveal(ArbitraryVariableView::step);
        self.string_machine.lemma_step(input, pos);
        self.css_variable_machine.lemma_step(input, pos);
    }
}

impl Default for ArbitraryVariableMachine {
    fn default() -> (machine: Self)
        ensures
            machine@ == ArbitraryVariableView::fresh(),
    {
        ArbitraryVariableMachine::new()
    }
}

impl ArbitraryVariableMachine {
    /// A machine that has read nothing yet.
    pub fn new() -> (machine: Self)
        ensures
            machine@ == ArbitraryVariableView::fresh(),
    {
        ArbitraryVariableMachine {
            start_pos: 0,
            bracket_stack: Vec::new(),
            skip_until_pos: None,
            state: State::Idle,
            string_machine: StringMachine::new(),
            css_variable_machine: CssVariableMachine::new(),
        }
    }

    /// Puts the machine back into the state it was constructed in.
    pub fn reset(&mut self)
        ensures
            final(self)@ == ArbitraryVariableView::fresh(),
    {
        *self = ArbitraryVariableMachine::new();
    }

    fn restart(&mut self) -> (state: MachineState)
        ensures
            final(self)@ == ArbitraryVariableView::fresh(),
            state == MachineState::Idle,
    {
        self.reset();
        MachineState::Idle
    }

    fn done(&mut self, start: usize, cursor: &Cursor<'_>) -> (state: MachineState)
        ensures
            final(self)@ == ArbitraryVariableView::fresh(),
            state == MachineState::Done(Span { start, end: cursor.pos }),
    {
        self.reset();
        MachineState::Done(Span::new(start, cursor.pos))
    }

    fn parse(&mut self) -> (state: MachineState)
        ensures
            final(self)@ == (ArbitraryVariableView { state: State::Parsing, ..old(self)@ }),
            state == MachineState::Parsing,
    {
        self.state = State::Parsing;
        MachineState::Parsing
    }

    fn parse_fallback(&mut self) -> (state: MachineState)
        ensures
            final(self)@ == (ArbitraryVariableView { state: State::ParsingFallback, ..old(self)@ }),
            state == MachineState::Parsing,
    {
        self.state = State::ParsingFallback;
        MachineState::Parsing
    }

    fn parse_string(&mut self, cursor: &Cursor<'_>) -> (state: MachineState)
        requires
            cursor.wf(),
            old(self)@.string_machine.inv(cursor.pos as int),
        ensures
            final(self)@ == (ArbitraryVariableView {
                string_machine: old(self)@.string_machine.step(cursor.input@, cursor.pos).0,
                state: State::ParsingString,
                ..old(self)@
            }),
            state == MachineState::Parsing,
    {
        self.string_machine.next(cursor);
        self.state = State::ParsingString;
        MachineState::Parsing
    }

    fn parse_end(&mut self) -> (state: MachineState)
        ensures
            final(self)@ == (ArbitraryVariableView { state: State::ParsingEnd, ..old(self)@ }),
            state == MachineState::Parsing,
    {
        self.state = State::ParsingEnd;
        MachineState::Parsing
    }

    /// Feeds one position of the fallback to the machine.
    fn next_in_fallback(&mut self, cursor: &Cursor<'_>) -> (state: MachineState)
        requires
            cursor.wf(),
            old(self)@.inv(cursor.pos as int),
            old(self)@.state == State::ParsingFallback,
        ensures
            (final(self)@, state) == old(self)@.step_fallback(cursor.input@, cursor.pos),
    {
        let curr = cursor.curr;
        if curr == BACKSLASH && is_whitespace(cursor.next) {
            // An escaped whitespace is not allowed.
            self.restart()
        } else if curr == BACKSLASH && !cursor.at_end {
            // An escaped byte is taken together with its backslash.
            self.skip_until_pos = Some(cursor.pos + 2);
            MachineState::Parsing
        } else if is_open_bracket(curr) {
            self.bracket_stack.push(closer_of(curr));
            MachineState::Parsing
        } else if is_close_bracket(curr) && !self.bracket_stack.is_empty() {
            let expected = self.bracket_stack[self.bracket_stack.len() - 1];
            if curr == expected {
                self.bracket_stack.pop();
                MachineState::Parsing
            } else {
                self.restart()
            }
        } else if curr == CLOSE_PAREN {
            // The end of the arbitrary variable.
            self.done(self.start_pos, cursor)
        } else if is_quote(curr) {
            self.parse_string(cursor)
        } else if curr == COLON && self.bracket_stack.is_empty() {
            // A `:` is only valid inside of brackets or of a string:
            // `(--foo,bar:baz)` is not a variable with a fallback.
            self.restart()
        } else if is_whitespace(curr) {
            self.restart()
        } else {
            MachineState::Parsing
        }
    }

    /// Feeds the position of `cursor` to the machine.
    pub fn next(&mut self, cursor: &Cursor<'_>) -> (state: MachineState)
        requires
            cursor.wf(),
            old(self)@.inv(cursor.pos as int),
        ensures
            (final(self)@, state) == old(self)@.step(cursor.input@, cursor.pos),
            final(self)@.inv(cursor.pos + 1),
            state matches MachineState::Done(span) ==> span.start < span.end && span.end
                == cursor.pos && cursor.pos < cursor.input@.len(),
            state is Done ==> final(self)@ == ArbitraryVariableView::fresh(),
    {
        proof {
            reveal(ArbitraryVariableView::step);
            old(self)@.lemma_step(cursor.input@, cursor.pos);
        }
        match self.skip_until_pos {
            Some(skip_until) if cursor.pos < skip_until => return MachineState::Parsing,
            Some(_) => self.skip_until_pos = None,
            None => {},
        }

        match self.state {
            State::Idle => {
                if cursor.curr == OPEN_PAREN && cursor.next == DASH {
                    // An arbitrary variable starts with `(` and a CSS
                    // variable after it.
                    self.start_pos = cursor.pos;
                    self.parse()
                } else {
                    MachineState::Idle
                }
            },
            State::Parsing => match self.css_variable_machine.next(cursor) {
                MachineState::Idle => self.restart(),
                MachineState::Parsing => MachineState::Parsing,
                MachineState::Done(_) => {
                    if cursor.next == COMMA {
                        // A `,` after the name starts the fallback.
                        self.parse_fallback()
                    } else {
                        self.parse_end()
                    }
                },
            },
            State::ParsingFallback => self.next_in_fallback(cursor),
            State::ParsingString => match self.string_machine.next(cursor) {
                MachineState::Idle => self.restart(),
                MachineState::Parsing => MachineState::Parsing,
                MachineState::Done(_) => self.parse_fallback(),
            },
            State::ParsingEnd => {
                if cursor.curr == CLOSE_PAREN {
                    self.done(self.start_pos, cursor)
                } else {
                    self.restart()
                }
            },
        }
    }
}

impl ArbitraryVariableView {
    /// An arbitrary variable ends with `)`.
    pub proof fn lemma_done_at(self, input: Seq<u8>, pos: usize)
        ensures
            self.step(input, pos).1 is Done ==> byte_at(input, pos as int) == CLOSE_PAREN,
    {
        reveal(ArbitraryVariableView::step);
    }
}

} // verus!
