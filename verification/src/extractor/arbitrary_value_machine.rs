//! Arbitrary values: `[...]` with balanced brackets and strings inside.

use vstd::prelude::*;
use crate::cursor::{byte_at, Cursor};
use crate::extractor::bytes::{
    is_quote, is_whitespace, BACKSLASH, CLOSE_BRACKET, CLOSE_CURLY, CLOSE_PAREN, OPEN_BRACKET,
    OPEN_CURLY, OPEN_PAREN,
};
use crate::extractor::machine::{MachineState, Span};
use crate::extractor::string_machine::{
    ending, lemma_ending_of_prefix, lemma_ending_of_rest, lemma_no_whitespace_in_string, Ending,
    StringMachine,
};
use crate::extractor::string_machine::State as StringState;

verus! {

/// The classes of bytes that the arbitrary value machine tells apart.
#[derive(Debug, Clone, Copy, PartialEq, Eq, Structural)]
pub enum Class {
    Escape,
    OpenParen,
    CloseParen,
    OpenBracket,
    CloseBracket,
    OpenCurly,
    CloseCurly,
    Quote,
    Whitespace,
    Other,
}

impl Class {
    /// The class of a byte.
    pub open spec fn of(byte: u8) -> Class {
        if byte == BACKSLASH {
            Class::Escape
        } else if byte == OPEN_PAREN {
            Class::OpenParen
        } else if byte == CLOSE_PAREN {
            Class::CloseParen
        } else if byte == OPEN_BRACKET {
            Class::OpenBracket
        } else if byte == CLOSE_BRACKET {
            Class::CloseBracket
        } else if byte == OPEN_CURLY {
            Class::OpenCurly
        } else if byte == CLOSE_CURLY {
            Class::CloseCurly
        } else if is_quote(byte) {
            Class::Quote
        } else if is_whitespace(byte) {
            Class::Whitespace
        } else {
            Class::Other
        }
    }

    /// For an opening bracket, the byte that closes it.
    pub open spec fn closer(self) -> Option<u8> {
        match self {
            Class::OpenParen => Some(CLOSE_PAREN),
            Class::OpenBracket => Some(CLOSE_BRACKET),
            Class::OpenCurly => Some(CLOSE_CURLY),
            _ => None,
        }
    }

    /// What `closes` computes.
    pub open spec fn spec_closes(self) -> bool {
        self == Class::CloseParen || self == Class::CloseBracket || self == Class::CloseCurly
    }

    /// Whether this is the class of a closing bracket.
    #[verifier::when_used_as_spec(spec_closes)]
    pub fn closes(self) -> (yes: bool)
        ensures
            yes == self.spec_closes(),
    {
        match self {
            Class::CloseParen | Class::CloseBracket | Class::CloseCurly => true,
            _ => false,
        }
    }
}

/// Sorts a byte into its class.
pub fn classify(byte: u8) -> (class: Class)
    ensures
        class == Class::of(byte),
{
    match byte {
        BACKSLASH => Class::Escape,
        OPEN_PAREN => Class::OpenParen,
        CLOSE_PAREN => Class::CloseParen,
        OPEN_BRACKET => Class::OpenBracket,
        CLOSE_BRACKET => Class::CloseBracket,
        OPEN_CURLY => Class::OpenCurly,
        CLOSE_CURLY => Class::CloseCurly,
        _ => if is_quote(byte) {
            Class::Quote
        } else if is_whitespace(byte) {
            Class::Whitespace
        } else {
            Class::Other
        },
    }
}

/// Where the machine stands in an arbitrary value.
#[derive(Debug, Clone, Copy, PartialEq, Eq, Structural)]
pub enum State {
    Idle,
    /// Inside the brackets of an arbitrary value.
    Parsing,
    /// Inside a string, where brackets need not be balanced.
    ParsingString,
}

/// Recognizes an arbitrary value, such as `[#0088cc]`.
#[derive(Debug)]
pub struct ArbitraryValueMachine {
    /// Start position of the arbitrary value.
    start_pos: usize,
    /// The closing brackets that are still expected, innermost last.
    bracket_stack: Vec<u8>,
    /// Ignore the bytes before this position.
    skip_until_pos: Option<usize>,
    /// Current state of the machine.
    state: State,
    string_machine: StringMachine,
}

/// The arbitrary value machine as specifications see it.
pub struct ArbitraryValueView {
    pub start_pos: usize,
    pub bracket_stack: Seq<u8>,
    pub skip_until_pos: Option<usize>,
    pub state: State,
    pub string_machine: StringMachine,
}

impl View for ArbitraryValueMachine {
    type V = ArbitraryValueView;

    closed spec fn view(&self) -> ArbitraryValueView {
        ArbitraryValueView {
            start_pos: self.start_pos,
            bracket_stack: self.bracket_stack@,
            skip_until_pos: self.skip_until_pos,
            state: self.state,
            string_machine: self.string_machine,
        }
    }
}

impl ArbitraryValueView {
    /// The machine as it is constructed and after every reset.
    pub open spec fn fresh() -> ArbitraryValueView {
        ArbitraryValueView {
            start_pos: 0,
            bracket_stack: Seq::empty(),
            skip_until_pos: None,
            state: State::Idle,
            string_machine: StringMachine::fresh(),
        }
    }

    /// Holds when all positions fed so far lie before `pos`. No more
    /// brackets are open than bytes were read.
    pub open spec fn inv(self, pos: int) -> bool {
        &&& self.bracket_stack.len() <= pos
        &&& self.string_machine.inv(pos)
        &&& self.state != State::Idle ==> self.start_pos < pos
    }

    /// The machine after position `pos` of `input` was fed to it, and what it
    /// reports for that position.
    #[verifier::opaque]
    pub open spec fn step(self, input: Seq<u8>, pos: usize) -> (ArbitraryValueView, MachineState) {
        let byte = byte_at(input, pos as int);
        let curr = Class::of(byte);
        let next = Class::of(byte_at(input, pos + 1));
        let at_end = pos + 1 >= input.len();
        if self.skip_until_pos matches Some(skip) && pos < skip {
            (self, MachineState::Parsing)
        } else {
            let woken = ArbitraryValueView { skip_until_pos: None, ..self };
            match self.state {
                State::Idle => {
                    if curr == Class::OpenBracket {
                        (
                            ArbitraryValueView { start_pos: pos, state: State::Parsing, ..woken },
                            MachineState::Parsing,
                        )
                    } else {
                        (woken, MachineState::Idle)
                    }
                },
                State::Parsing => {
                    if curr == Class::Escape && next == Class::Whitespace {
                        (ArbitraryValueView::fresh(), MachineState::Idle)
                    } else if curr == Class::Escape && !at_end {
                        (
                            ArbitraryValueView {
                                skip_until_pos: Some((pos + 2) as usize),
                                ..woken
                            },
                            MachineState::Parsing,
                        )
                    } else if curr.closer() is Some {
                        (
                            ArbitraryValueView {
                                bracket_stack: self.bracket_stack.push(curr.closer().unwrap()),
                                ..woken
                            },
                            MachineState::Parsing,
                        )
                    } else if curr.closes() && self.bracket_stack.len() > 0 {
                        if self.bracket_stack.last() == byte {
                            (
                                ArbitraryValueView {
                                    bracket_stack: self.bracket_stack.drop_last(),
                                    ..woken
                                },
                                MachineState::Parsing,
                            )
                        } else {
                            (ArbitraryValueView::fresh(), MachineState::Idle)
                        }
                    } else if curr == Class::CloseBracket {
                        if self.start_pos + 1 != pos {
                            (
                                ArbitraryValueView::fresh(),
                                MachineState::Done(Span { start: self.start_pos, end: pos }),
                            )
                        } else {
                            (ArbitraryValueView::fresh(), MachineState::Idle)
                        }
                    } else if curr == Class::Quote {
                        (
                            ArbitraryValueView {
                                string_machine: self.string_machine.step(input, pos).0,
                                state: State::ParsingString,
                                ..woken
                            },
                            MachineState::Parsing,
                        )
                    } else if curr == Class::Whitespace {
                        (ArbitraryValueView::fresh(), MachineState::Idle)
                    } else {
                        (woken, MachineState::Parsing)
                    }
                },
                State::ParsingString => {
                    let (string_machine, string_state) = self.string_machine.step(input, pos);
                    match string_state {
                        MachineState::Idle => (ArbitraryValueView::fresh(), MachineState::Idle),
                        MachineState::Parsing => (
                            ArbitraryValueView { string_machine, ..woken },
                            MachineState::Parsing,
                        ),
                        MachineState::Done(_) => (
                            ArbitraryValueView { string_machine, state: State::Parsing, ..woken },
                            MachineState::Parsing,
                        ),
                    }
                },
            }
        }
    }

    /// Feeding positions in order keeps the machine consistent, and a span
    /// that it reports is a range of the input of at least three bytes that
    /// ends at the position fed.
    /// Behind a report the machine is as it was constructed.
    pub proof fn lemma_step(self, input: Seq<u8>, pos: usize)
        requires
            self.inv(pos as int),
            pos <= input.len() <= usize::MAX,
        ensures
            self.step(input, pos).0.inv(pos + 1),
            self.step(input, pos).1 matches MachineState::Done(span) ==> span.start + 1 < span.end
                && span.end == pos && pos < input.len(),
            self.step(input, pos).1 is Done ==> self.step(input, pos).0 == ArbitraryValueView::fresh(),
    {
        reveal(ArbitraryValueView::step);
        self.string_machine.lemma_step(input, pos);
    }
}

impl Default for ArbitraryValueMachine {
    fn default() -> (machine: Self)
        ensures
            machine@ == ArbitraryValueView::fresh(),
    {
        ArbitraryValueMachine::new()
    }
}

impl ArbitraryValueMachine {
    /// A machine that has read nothing yet.
    pub fn new() -> (machine: Self)
        ensures
            machine@ == ArbitraryValueView::fresh(),
    {
        ArbitraryValueMachine {
            start_pos: 0,
            bracket_stack: Vec::new(),
            skip_until_pos: None,
            state: State::Idle,
            string_machine: StringMachine::new(),
        }
    }

    /// Puts the machine back into the state it was constructed in.
    pub fn reset(&mut self)
        ensures
            final(self)@ == ArbitraryValueView::fresh(),
    {
        *self = ArbitraryValueMachine::new();
    }

    fn restart(&mut self) -> (state: MachineState)
        ensures
            final(self)@ == ArbitraryValueView::fresh(),
            state == MachineState::Idle,
    {
        self.reset();
        MachineState::Idle
    }

    fn done(&mut self, start: usize, cursor: &Cursor<'_>) -> (state: MachineState)
        ensures
            final(self)@ == ArbitraryValueView::fresh(),
            state == MachineState::Done(Span { start, end: cursor.pos }),
    {
        self.reset();
        MachineState::Done(Span::new(start, cursor.pos))
    }

    fn parse(&mut self) -> (state: MachineState)
        ensures
            final(self)@ == (ArbitraryValueView { state: State::Parsing, ..old(self)@ }),
            state == MachineState::Parsing,
    {
        self.state = State::Parsing;
        MachineState::Parsing
    }

    fn parse_string(&mut self, cursor: &Cursor<'_>) -> (state: MachineState)
        requires
            cursor.wf(),
            old(self)@.string_machine.inv(cursor.pos as int),
        ensures
            final(self)@ == (ArbitraryValueView {
                string_machine: old(self)@.string_machine.step(cursor.input@, cursor.pos).0,
                state: State::ParsingString,
                ..old(self)@
            }),
            state == MachineState::Parsing,
    {
        self.string_machine.next(cursor);
        self.state = State::ParsingString;
        MachineState::Parsing
    }

    /// Feeds the position of `cursor` to the machine.
    pub fn next(&mut self, cursor: &Cursor<'_>) -> (state: MachineState)
        requires
            cursor.wf(),
            old(self)@.inv(cursor.pos as int),
        ensures
            (final(self)@, state) == old(self)@.step(cursor.input@, cursor.pos),
            final(self)@.inv(cursor.pos + 1),
            state matches MachineState::Done(span) ==> span.start + 1 < span.end && span.end
                == cursor.pos && cursor.pos < cursor.input@.len(),
            state is Done ==> final(self)@ == ArbitraryValueView::fresh(),
    {
        proof {
            reveal(ArbitraryValueView::step);
            old(self)@.lemma_step(cursor.input@, cursor.pos);
        }
        match self.skip_until_pos {
            Some(skip_until) if cursor.pos < skip_until => return MachineState::Parsing,
            Some(_) => self.skip_until_pos = None,
            None => {},
        }

        let class_curr = classify(cursor.curr);
        let class_next = classify(cursor.next);

        match self.state {
            State::Idle => match class_curr {
                Class::OpenBracket => {
                    self.start_pos = cursor.pos;
                    self.parse()
                },
                _ => MachineState::Idle,
            },
            State::Parsing => match (class_curr, class_next) {
                // An escaped whitespace is not allowed.
                (Class::Escape, Class::Whitespace) => self.restart(),
                // An escaped byte is taken together with its backslash.
                (Class::Escape, _) if !cursor.at_end => {
                    self.skip_until_pos = Some(cursor.pos + 2);
                    MachineState::Parsing
                },
                (Class::OpenParen, _) => {
                    self.bracket_stack.push(CLOSE_PAREN);
                    MachineState::Parsing
                },
                (Class::OpenBracket, _) => {
                    self.bracket_stack.push(CLOSE_BRACKET);
                    MachineState::Parsing
                },
                (Class::OpenCurly, _) => {
                    self.bracket_stack.push(CLOSE_CURLY);
                    MachineState::Parsing
                },
                (class, _) if class.closes() && !self.bracket_stack.is_empty() => {
                    let expected = self.bracket_stack[self.bracket_stack.len() - 1];
                    if cursor.curr == expected {
                        self.bracket_stack.pop();
                    } else {
                        return self.restart();
                    }
                    MachineState::Parsing
                },
                // The end of the value: all brackets are closed. There has
                // to be at least one byte between the outer brackets.
                (Class::CloseBracket, _) => {
                    if self.start_pos + 1 != cursor.pos {
                        self.done(self.start_pos, cursor)
                    } else {
                        self.restart()
                    }
                },
                (Class::Quote, _) => self.parse_string(cursor),
                (Class::Whitespace, _) => self.restart(),
                _ => MachineState::Parsing,
            },
            State::ParsingString => match self.string_machine.next(cursor) {
                MachineState::Idle => self.restart(),
                MachineState::Parsing => MachineState::Parsing,
                MachineState::Done(_) => self.parse(),
            },
        }
    }
}

/// Reading `value` from behind its opening `[` up to the position `upto`
/// leaves the closing brackets of `stack` expected. What is read is made of
/// bytes of no special meaning, brackets, of which every closing one
/// closes the bracket that was opened last, backslashes with the byte
/// behind them, which is no whitespace, and strings. Unless `strict`, a
/// `)` or `}` may also stand where no bracket is open.
pub open spec fn reads_to(value: Seq<u8>, upto: int, stack: Seq<u8>, strict: bool) -> bool
    decreases upto,
{
    ||| upto == 1 && stack.len() == 0
    ||| 1 < upto <= value.len() && Class::of(value[upto - 1]) == Class::Other && reads_to(
        value,
        upto - 1,
        stack,
        strict,
    )
    ||| 1 < upto <= value.len() && Class::of(value[upto - 1]).closer() is Some && stack.len() > 0
        && stack.last() == Class::of(value[upto - 1]).closer().unwrap() && reads_to(
        value,
        upto - 1,
        stack.drop_last(),
        strict,
    )
    ||| 1 < upto <= value.len() && Class::of(value[upto - 1]).closes() && reads_to(
        value,
        upto - 1,
        stack.push(value[upto - 1]),
        strict,
    )
    ||| !strict && 1 < upto <= value.len() && Class::of(value[upto - 1]).closes() && stack.len()
        == 0 && value[upto - 1] != CLOSE_BRACKET && reads_to(value, upto - 1, stack, strict)
    ||| 2 < upto <= value.len() && value[upto - 2] == BACKSLASH && !is_whitespace(
        value[upto - 1],
    ) && reads_to(value, upto - 2, stack, strict)
    ||| exists|open: int|
        1 <= open < upto - 1 && upto <= value.len() && is_quote(#[trigger] value[open])
            && ending(value, value[open], open + 1) == Ending::Closed(upto - 1) && reads_to(
            value,
            open,
            stack,
            strict,
        )
}

/// The bytes are an arbitrary value: `[`, at least one byte, and `]`
/// where all brackets that were opened in between are closed.
pub open spec fn is_arbitrary_value(value: Seq<u8>) -> bool {
    &&& value.len() >= 3
    &&& value[0] == OPEN_BRACKET
    &&& value[value.len() - 1] == CLOSE_BRACKET
    &&& reads_to(value, value.len() - 1, Seq::empty(), false)
}

/// The bytes are an arbitrary value in which, outside of strings, all
/// brackets are balanced.
pub open spec fn is_balanced_value(value: Seq<u8>) -> bool {
    &&& value.len() >= 3
    &&& value[0] == OPEN_BRACKET
    &&& value[value.len() - 1] == CLOSE_BRACKET
    &&& reads_to(value, value.len() - 1, Seq::empty(), true)
}

/// Inside of the value a `)` or `}` stands where no bracket is open.
pub open spec fn has_stray_closer(value: Seq<u8>) -> bool {
    exists|at: int|
        1 <= at < value.len() - 1 && Class::of(value[at]).closes() && value[at] != CLOSE_BRACKET
            && #[trigger] reads_to(value, at, Seq::empty(), false)
}

/// What is read up to a position does not depend on what stands behind
/// it.
pub proof fn lemma_reads_to_of_prefix(
    value: Seq<u8>,
    len: int,
    upto: int,
    stack: Seq<u8>,
    strict: bool,
)
    requires
        upto <= len <= value.len(),
        reads_to(value, upto, stack, strict),
    ensures
        reads_to(value.take(len), upto, stack, strict),
    decreases upto,
{
    let prefix = value.take(len);
    if upto == 1 && stack.len() == 0 {
    } else {
        assert(prefix[upto - 1] == value[upto - 1]);
        let last = value[upto - 1];
        if Class::of(last) == Class::Other && reads_to(value, upto - 1, stack, strict) {
            lemma_reads_to_of_prefix(value, len, upto - 1, stack, strict);
        } else if Class::of(last).closer() is Some && stack.len() > 0 && stack.last()
            == Class::of(last).closer().unwrap() && reads_to(
            value,
            upto - 1,
            stack.drop_last(),
            strict,
        ) {
            lemma_reads_to_of_prefix(value, len, upto - 1, stack.drop_last(), strict);
        } else if Class::of(last).closes() && reads_to(
            value,
            upto - 1,
            stack.push(last),
            strict,
        ) {
            lemma_reads_to_of_prefix(value, len, upto - 1, stack.push(last), strict);
        } else if !strict && Class::of(last).closes() && stack.len() == 0 && last
            != CLOSE_BRACKET && reads_to(value, upto - 1, stack, strict) {
            lemma_reads_to_of_prefix(value, len, upto - 1, stack, strict);
        } else if 2 < upto && value[upto - 2] == BACKSLASH && !is_whitespace(last) && reads_to(
            value,
            upto - 2,
            stack,
            strict,
        ) {
            assert(prefix[upto - 2] == value[upto - 2]);
            lemma_reads_to_of_prefix(value, len, upto - 2, stack, strict);
        } else {
            let open = choose|open: int|
                1 <= open < upto - 1 && upto <= value.len() && is_quote(#[trigger] value[open])
                    && ending(value, value[open], open + 1) == Ending::Closed(upto - 1)
                    && reads_to(value, open, stack, strict);
            assert(prefix[open] == value[open]);
            lemma_ending_of_prefix(value, len, value[open], open + 1);
            lemma_reads_to_of_prefix(value, len, open, stack, strict);
        }
    }
}

/// Without a closing bracket where none is open, what is read is
/// balanced.
pub proof fn lemma_reads_to_strictly(value: Seq<u8>, upto: int, stack: Seq<u8>)
    requires
        upto < value.len(),
        reads_to(value, upto, stack, false),
        !has_stray_closer(value),
    ensures
        reads_to(value, upto, stack, true),
    decreases upto,
{
    if upto == 1 && stack.len() == 0 {
    } else {
        let last = value[upto - 1];
        if Class::of(last) == Class::Other && reads_to(value, upto - 1, stack, false) {
            lemma_reads_to_strictly(value, upto - 1, stack);
        } else if Class::of(last).closer() is Some && stack.len() > 0 && stack.last()
            == Class::of(last).closer().unwrap() && reads_to(
            value,
            upto - 1,
            stack.drop_last(),
            false,
        ) {
            lemma_reads_to_strictly(value, upto - 1, stack.drop_last());
        } else if Class::of(last).closes() && reads_to(value, upto - 1, stack.push(last), false) {
            lemma_reads_to_strictly(value, upto - 1, stack.push(last));
        } else if Class::of(last).closes() && stack.len() == 0 && last != CLOSE_BRACKET
            && reads_to(value, upto - 1, stack, false) {
            assert(stack =~= Seq::<u8>::empty());
            assert(has_stray_closer(value));
        } else if 2 < upto && value[upto - 2] == BACKSLASH && !is_whitespace(last) && reads_to(
            value,
            upto - 2,
            stack,
            false,
        ) {
            lemma_reads_to_strictly(value, upto - 2, stack);
        } else {
            let open = choose|open: int|
                1 <= open < upto - 1 && upto <= value.len() && is_quote(#[trigger] value[open])
                    && ending(value, value[open], open + 1) == Ending::Closed(upto - 1)
                    && reads_to(value, open, stack, false);
            lemma_reads_to_strictly(value, open, stack);
        }
    }
}

/// In an arbitrary value all brackets outside of strings are balanced,
/// unless a `)` or `}` stands in it where no bracket is open, as in
/// `[a)b]`.
pub proof fn lemma_balanced_without_stray_closer(value: Seq<u8>)
    requires
        is_arbitrary_value(value),
        !has_stray_closer(value),
    ensures
        is_balanced_value(value),
{
    lemma_reads_to_strictly(value, value.len() - 1, Seq::empty());
}

impl ArbitraryValueView {
    /// The machine after the first `n` positions of `input` were fed to it.
    pub open spec fn after(input: Seq<u8>, n: nat) -> ArbitraryValueView
        decreases n,
    {
        if n == 0 {
            ArbitraryValueView::fresh()
        } else {
            ArbitraryValueView::after(input, (n - 1) as nat).step(input, (n - 1) as usize).0
        }
    }

    /// The spans that the machine reports for the first `n` positions of
    /// `input`.
    pub open spec fn reports(input: Seq<u8>, n: nat) -> Seq<Span>
        decreases n,
    {
        if n == 0 {
            Seq::empty()
        } else {
            ArbitraryValueView::reports(input, (n - 1) as nat) + ArbitraryValueView::after(
                input,
                (n - 1) as nat,
            ).step(input, (n - 1) as usize).1.found()
        }
    }

    /// The position that the machine looks at next, once it stands
    /// before position `pos`: it skips the byte behind a backslash.
    pub open spec fn resumes_at(self, pos: int) -> int {
        match self.skip_until_pos {
            Some(skip) => if pos < skip {
                skip as int
            } else {
                pos
            },
            None => pos,
        }
    }

    /// The bracket stack of the machine is the one that reading the value
    /// so far leaves.
    pub open spec fn traced(self, input: Seq<u8>, pos: int) -> bool {
        &&& self.inv(pos)
        &&& pos < input.len() ==> {
            let start = self.start_pos as int;
            match self.state {
                State::Idle => self.bracket_stack.len() == 0 && self.string_machine.state
                    == StringState::Idle,
                State::Parsing => {
                    &&& self.resumes_at(pos) <= input.len()
                    &&& input[start] == OPEN_BRACKET
                    &&& self.string_machine.state == StringState::Idle
                    &&& reads_to(
                        input.skip(start),
                        self.resumes_at(pos) - start,
                        self.bracket_stack,
                        false,
                    )
                },
                State::ParsingString => {
                    &&& self.skip_until_pos is None
                    &&& input[start] == OPEN_BRACKET
                    &&& self.string_machine.state is Parsing
                    &&& start < self.string_machine.start_pos
                    &&& self.string_machine.traced(input, pos)
                    &&& reads_to(
                        input.skip(start),
                        self.string_machine.start_pos - start,
                        self.bracket_stack,
                        false,
                    )
                },
            }
        }
    }

    /// Feeding a position keeps the bracket stack in step with what was
    /// read, and a span that is reported is an arbitrary value.
    pub proof fn lemma_step_traced(self, input: Seq<u8>, pos: usize)
        requires
            self.traced(input, pos as int),
            pos < input.len() <= usize::MAX,
        ensures
            self.step(input, pos).0.traced(input, pos + 1),
            self.step(input, pos).1 matches MachineState::Done(span) ==> span.start + 1 < span.end
                == pos && is_arbitrary_value(span.of(input)),
    {
        reveal(ArbitraryValueView::step);
        reveal(StringMachine::step);
        self.lemma_step(input, pos);
        let (machine, state) = self.step(input, pos);
        let start = self.start_pos as int;
        let rest = input.skip(start);
        let byte = input[pos as int];
        if !(self.skip_until_pos matches Some(skip) && pos < skip) {
            match self.state {
                State::Idle => {},
                State::Parsing => {
                    assert(rest[pos - start] == byte);
                    if state is Done {
                        let value = input.subrange(start, pos + 1);
                        assert(self.bracket_stack =~= Seq::<u8>::empty());
                        lemma_reads_to_of_prefix(
                            rest,
                            pos + 1 - start,
                            pos - start,
                            self.bracket_stack,
                            false,
                        );
                        assert(rest.take(pos + 1 - start) =~= value);
                    } else if machine.state == State::Parsing {
                        if machine.skip_until_pos is Some {
                        } else if Class::of(byte).closer() is Some {
                            assert(machine.bracket_stack.drop_last() =~= self.bracket_stack);
                        } else if Class::of(byte).closes() && self.bracket_stack.len() > 0 {
                            assert(machine.bracket_stack.push(byte) =~= self.bracket_stack);
                        }
                    } else if machine.state == State::ParsingString {
                        self.string_machine.lemma_step_traced(input, pos);
                    }
                },
                State::ParsingString => {
                    self.string_machine.lemma_step_traced(input, pos);
                    let open = self.string_machine.start_pos as int;
                    if machine.state == State::Parsing {
                        lemma_ending_of_rest(input, start, input[open], open + 1 - start);
                        assert(rest[open - start] == input[open]);
                        assert(reads_to(rest, open - start, self.bracket_stack, false));
                    }
                },
            }
        }
    }

    /// However far the input was fed, the bracket stack of the machine is
    /// in step with what it has read.
    pub proof fn lemma_after_traced(input: Seq<u8>, n: nat)
        requires
            n <= input.len() <= usize::MAX,
        ensures
            ArbitraryValueView::after(input, n).traced(input, n as int),
        decreases n,
    {
        if n > 0 {
            ArbitraryValueView::lemma_after_traced(input, (n - 1) as nat);
            ArbitraryValueView::after(input, (n - 1) as nat).lemma_step_traced(
                input,
                (n - 1) as usize,
            );
        }
    }

    /// Every span that the machine reports is an arbitrary value: it
    /// holds at least one byte between `[` and `]`, and every bracket that
    /// is opened in it outside of a string is closed in turn.
    pub proof fn lemma_reports_arbitrary_values(input: Seq<u8>, n: nat)
        requires
            n <= input.len() <= usize::MAX,
        ensures
            forall|j: int|
                0 <= j < ArbitraryValueView::reports(input, n).len() ==> {
                    let span = #[trigger] ArbitraryValueView::reports(input, n)[j];
                    span.fits(n) && is_arbitrary_value(span.of(input))
                },
        decreases n,
    {
        if n > 0 {
            let before = (n - 1) as nat;
            ArbitraryValueView::lemma_reports_arbitrary_values(input, before);
            ArbitraryValueView::lemma_after_traced(input, before);
            ArbitraryValueView::after(input, before).lemma_step_traced(input, before as usize);
            let earlier = ArbitraryValueView::reports(input, before);
            let all = ArbitraryValueView::reports(input, n);
            assert forall|j: int| 0 <= j < all.len() implies {
                let span = #[trigger] all[j];
                span.fits(n) && is_arbitrary_value(span.of(input))
            } by {
                if j < earlier.len() {
                    assert(all[j] == earlier[j]);
                }
            }
        }
    }
}

/// No whitespace stands in what is read of a value.
pub proof fn lemma_reads_no_whitespace(value: Seq<u8>, upto: int, stack: Seq<u8>, at: int)
    requires
        reads_to(value, upto, stack, false),
        1 <= at < upto,
    ensures
        !is_whitespace(value[at]),
    decreases upto,
{
    let last = value[upto - 1];
    if Class::of(last) == Class::Other && reads_to(value, upto - 1, stack, false) {
        if at < upto - 1 {
            lemma_reads_no_whitespace(value, upto - 1, stack, at);
        }
    } else if Class::of(last).closer() is Some && stack.len() > 0 && stack.last() == Class::of(
        last,
    ).closer().unwrap() && reads_to(value, upto - 1, stack.drop_last(), false) {
        if at < upto - 1 {
            lemma_reads_no_whitespace(value, upto - 1, stack.drop_last(), at);
        }
    } else if Class::of(last).closes() && reads_to(value, upto - 1, stack.push(last), false) {
        if at < upto - 1 {
            lemma_reads_no_whitespace(value, upto - 1, stack.push(last), at);
        }
    } else if Class::of(last).closes() && stack.len() == 0 && last != CLOSE_BRACKET && reads_to(
        value,
        upto - 1,
        stack,
        false,
    ) {
        if at < upto - 1 {
            lemma_reads_no_whitespace(value, upto - 1, stack, at);
        }
    } else if 2 < upto && value[upto - 2] == BACKSLASH && !is_whitespace(last) && reads_to(
        value,
        upto - 2,
        stack,
        false,
    ) {
        if at < upto - 2 {
            lemma_reads_no_whitespace(value, upto - 2, stack, at);
        }
    } else {
        let open = choose|open: int|
            1 <= open < upto - 1 && upto <= value.len() && is_quote(#[trigger] value[open])
                && ending(value, value[open], open + 1) == Ending::Closed(upto - 1) && reads_to(
                value,
                open,
                stack,
                false,
            );
        if at < open {
            lemma_reads_no_whitespace(value, open, stack, at);
        } else if at > open {
            lemma_no_whitespace_in_string(value, value[open], open + 1, at);
        }
    }
}

/// No whitespace stands in an arbitrary value, escaped or not.
pub proof fn lemma_no_whitespace_in_value(value: Seq<u8>, at: int)
    requires
        is_arbitrary_value(value),
        0 <= at < value.len(),
    ensures
        !is_whitespace(value[at]),
{
    if 1 <= at < value.len() - 1 {
        lemma_reads_no_whitespace(value, value.len() - 1, Seq::empty(), at);
    }
}

impl ArbitraryValueView {
    /// Whenever the machine, fed from the first position on, reports a
    /// span, the span ends at the position fed and is an arbitrary value.
    pub proof fn lemma_done_is_arbitrary_value(input: Seq<u8>, pos: usize)
        requires
            pos < input.len() <= usize::MAX,
        ensures
            ArbitraryValueView::after(input, pos as nat).step(input, pos).1 matches MachineState::Done(
                span,
            ) ==> span.start + 1 < span.end == pos && is_arbitrary_value(span.of(input)),
    {
        ArbitraryValueView::lemma_after_traced(input, pos as nat);
        ArbitraryValueView::after(input, pos as nat).lemma_step_traced(input, pos);
    }
}

impl ArbitraryValueView {
    /// An arbitrary value ends with `]`.
    pub proof fn lemma_done_at(self, input: Seq<u8>, pos: usize)
        ensures
            self.step(input, pos).1 is Done ==> byte_at(input, pos as int) == CLOSE_BRACKET,
    {
        reveal(ArbitraryValueView::step);
    }
}

} // verus!
