//! CSS custom property names: `--` followed by identifier characters.

use vstd::prelude::*;
use crate::cursor::{byte_at, Cursor};
use crate::extractor::bytes::{is_alnum, is_whitespace, BACKSLASH, DASH, NUL, UNDERSCORE};
use crate::extractor::machine::{MachineState, Span};

verus! {

/// The classes of bytes that the CSS variable machine tells apart.
#[derive(Debug, Clone, Copy, PartialEq, Eq, Structural)]
pub enum Class {
    Dash,
    /// A letter, a digit or an underscore.
    AllowedCharacter,
    Escape,
    Whitespace,
    End,
    Other,
}

impl Class {
    /// The class of a byte.
    pub open spec fn of(byte: u8) -> Class {
        if byte == DASH {
            Class::Dash
        } else if byte == BACKSLASH {
            Class::Escape
        } else if is_whitespace(byte) {
            Class::Whitespace
        } else if byte == UNDERSCORE || is_alnum(byte) {
            Class::AllowedCharacter
        } else if byte == NUL {
            Class::End
        } else {
            Class::Other
        }
    }

    /// What `in_name` computes.
    pub open spec fn spec_in_name(self) -> bool {
        self == Class::AllowedCharacter || self == Class::Dash
    }

    /// Whether a byte of this class may stand in the name of a variable.
    #[verifier::when_used_as_spec(spec_in_name)]
    pub fn in_name(self) -> (yes: bool)
        ensures
            yes == self.spec_in_name(),
    {
        match self {
            Class::AllowedCharacter | Class::Dash => true,
            _ => false,
        }
    }
}

/// Sorts a byte into its class.
pub fn classify(byte: u8) -> (class: Class)
    ensures
        class == Class::of(byte),
{
    if byte == DASH {
        Class::Dash
    } else if byte == BACKSLASH {
        Class::Escape
    } else if is_whitespace(byte) {
        Class::Whitespace
    } else if byte == UNDERSCORE || is_alnum(byte) {
        Class::AllowedCharacter
    } else if byte == NUL {
        Class::End
    } else {
        Class::Other
    }
}

/// Where the machine stands in a CSS variable.
#[derive(Debug, Clone, Copy, PartialEq, Eq, Structural)]
pub enum State {
    Idle,
    /// Inside the name of a CSS variable.
    Parsing,
}

/// Recognizes the name of a CSS variable, such as `--my-color`.
#[derive(Debug, Clone, Copy)]
pub struct CssVariableMachine {
    /// Start position of the CSS variable.
    pub start_pos: usize,
    /// Ignore the bytes before this position.
    pub skip_until_pos: Option<usize>,
    /// Current state of the machine.
    pub state: State,
}

impl Default for CssVariableMachine {
    fn default() -> (machine: Self)
        ensures
            machine == CssVariableMachine::fresh(),
    {
        CssVariableMachine::new()
    }
}

impl CssVariableMachine {
    /// The machine as it is constructed and after every reset.
    pub open spec fn fresh() -> CssVariableMachine {
        CssVariableMachine { start_pos: 0, skip_until_pos: None, state: State::Idle }
    }

    /// Holds when all positions fed so far lie before `pos`.
    pub open spec fn inv(self, pos: int) -> bool {
        match self.state {
            State::Idle => self.skip_until_pos is None,
            State::Parsing => {
                &&& self.start_pos + 1 < pos || self.skip_until_pos == Some(
                    (self.start_pos + 2) as usize,
                )
                &&& self.start_pos < pos
                &&& self.skip_until_pos matches Some(skip) ==> skip <= pos + 1
            },
        }
    }

    /// The machine after position `pos` of `input` was fed to it, and what it
    /// reports for that position.
    #[verifier::opaque]
    pub open spec fn step(self, input: Seq<u8>, pos: usize) -> (
        CssVariableMachine,
        MachineState,
    ) {
        let curr = Class::of(byte_at(input, pos as int));
        let next = Class::of(byte_at(input, pos + 1));
        let at_end = pos + 1 >= input.len();
        if self.skip_until_pos matches Some(skip) && pos < skip {
            (self, MachineState::Parsing)
        } else {
            let woken = CssVariableMachine { skip_until_pos: None, ..self };
            match self.state {
                State::Idle => {
                    if curr == Class::Dash && next == Class::Dash {
                        (
                            CssVariableMachine {
                                start_pos: pos,
                                skip_until_pos: Some((pos + 2) as usize),
                                state: State::Parsing,
                            },
                            MachineState::Parsing,
                        )
                    } else {
                        (woken, MachineState::Idle)
                    }
                },
                State::Parsing => {
                    if curr.in_name() {
                        if next.in_name() || next == Class::Escape {
                            (woken, MachineState::Parsing)
                        } else {
                            (
                                CssVariableMachine::fresh(),
                                MachineState::Done(Span { start: self.start_pos, end: pos }),
                            )
                        }
                    } else if curr == Class::Escape && next != Class::Whitespace && !at_end {
                        (
                            CssVariableMachine {
                                skip_until_pos: Some((pos + 2) as usize),
                                ..woken
                            },
                            MachineState::Parsing,
                        )
                    } else {
                        (CssVariableMachine::fresh(), MachineState::Idle)
                    }
                },
            }
        }
    }

    /// Feeding positions in order keeps the machine consistent, and a span
    /// that it reports is a range of the input of at least three bytes that
    /// ends at the position fed.
    /// Behind a report the machine is as it was constructed.
    pub proof fn lemma_step(self, input: Seq<u8>, pos: usize)
        requires
            self.inv(pos as int),
            pos <= input.len() <= usize::MAX,
        ensures
            self.step(input, pos).0.inv(pos + 1),
            self.step(input, pos).1 matches MachineState::Done(span) ==> span.start + 1 < span.end
                && span.end == pos && pos < input.len(),
            self.step(input, pos).1 is Done ==> self.step(input, pos).0 == CssVariableMachine::fresh(),
    {
        reveal(CssVariableMachine::step);
    }

    /// A machine that has read nothing yet.
    pub fn new() -> (machine: Self)
        ensures
            machine == CssVariableMachine::fresh(),
    {
        CssVariableMachine { start_pos: 0, skip_until_pos: None, state: State::Idle }
    }

    /// Puts the machine back into the state it was constructed in.
    pub fn reset(&mut self)
        ensures
            *final(self) == CssVariableMachine::fresh(),
    {
        *self = CssVariableMachine::new();
    }

    fn restart(&mut self) -> (state: MachineState)
        ensures
            *final(self) == CssVariableMachine::fresh(),
            state == MachineState::Idle,
    {
        self.reset();
        MachineState::Idle
    }

    fn done(&mut self, start: usize, cursor: &Cursor<'_>) -> (state: MachineState)
        ensures
            *final(self) == CssVariableMachine::fresh(),
            state == MachineState::Done(Span { start, end: cursor.pos }),
    {
        self.reset();
        MachineState::Done(Span::new(start, cursor.pos))
    }

    /// Feeds the position of `cursor` to the machine.
    pub fn next(&mut self, cursor: &Cursor<'_>) -> (state: MachineState)
        requires
            cursor.wf(),
            old(self).inv(cursor.pos as int),
        ensures
            (*final(self), state) == old(self).step(cursor.input@, cursor.pos),
            final(self).inv(cursor.pos + 1),
            state matches MachineState::Done(span) ==> span.start + 1 < span.end && span.end
                == cursor.pos && cursor.pos < cursor.input@.len(),
            state is Done ==> *final(self) == CssVariableMachine::fresh(),
    {
        proof {
            reveal(CssVariableMachine::step);
            old(self).lemma_step(cursor.input@, cursor.pos);
        }
        match self.skip_until_pos {
            Some(skip_until) if cursor.pos < skip_until => return MachineState::Parsing,
            Some(_) => self.skip_until_pos = None,
            None => {},
        }

        let class_curr = classify(cursor.curr);
        let class_next = classify(cursor.next);

        match self.state {
            State::Idle => match (class_curr, class_next) {
                (Class::Dash, Class::Dash) => {
                    self.start_pos = cursor.pos;
                    self.skip_until_pos = Some(cursor.pos + 2);
                    self.state = State::Parsing;
                    MachineState::Parsing
                },
                _ => MachineState::Idle,
            },
            State::Parsing => match (class_curr, class_next) {
                // A valid byte at the end of the input.
                (Class::AllowedCharacter | Class::Dash, Class::End) => {
                    self.done(self.start_pos, cursor)
                },
                // A valid byte followed by a valid byte or an escape.
                (
                    Class::AllowedCharacter | Class::Dash,
                    Class::AllowedCharacter | Class::Dash | Class::Escape,
                ) => MachineState::Parsing,
                // A valid byte followed by a byte that ends the name.
                (Class::AllowedCharacter | Class::Dash, _) => self.done(self.start_pos, cursor),
                // An escaped whitespace would put a space into a class name.
                (Class::Escape, Class::Whitespace) => self.restart(),
                // An escaped byte is taken together with its backslash.
                (Class::Escape, _) if !cursor.at_end => {
                    self.skip_until_pos = Some(cursor.pos + 2);
                    MachineState::Parsing
                },
                _ => self.restart(),
            },
        }
    }
}

/// What `in_name` computes.
pub open spec fn spec_in_name(byte: u8) -> bool {
    Class::of(byte).in_name()
}

/// A byte that may stand in the name of a variable: a letter, a digit, `_`
/// or `-`.
#[verifier::when_used_as_spec(spec_in_name)]
pub fn in_name(byte: u8) -> (yes: bool)
    ensures
        yes == spec_in_name(byte),
{
    classify(byte).in_name()
}

/// The bytes of `name` behind its two dashes and before `upto` are whole
/// units, where a unit is a byte that may stand in a name, or a backslash
/// with the byte behind it, which can be any byte but a whitespace.
pub open spec fn splits_into_units(name: Seq<u8>, upto: int) -> bool
    decreases upto,
{
    ||| upto == 2
    ||| 2 < upto <= name.len() && in_name(name[upto - 1]) && splits_into_units(name, upto - 1)
    ||| 3 < upto <= name.len() && name[upto - 2] == BACKSLASH && !is_whitespace(name[upto - 1])
        && splits_into_units(name, upto - 2)
}

/// The bytes are the name of a CSS variable: two dashes, then units, of
/// which the last is a byte that may stand in a name.
pub open spec fn is_css_variable(name: Seq<u8>) -> bool {
    &&& name.len() >= 3
    &&& name[0] == DASH
    &&& name[1] == DASH
    &&& in_name(name[name.len() - 1])
    &&& splits_into_units(name, name.len() - 1)
}

/// Whether bytes split into units depends on the bytes before `upto` only.
pub proof fn lemma_units_of_prefix(name: Seq<u8>, prefix: Seq<u8>, upto: int)
    requires
        upto <= prefix.len() <= name.len(),
        forall|i: int| 0 <= i < prefix.len() ==> prefix[i] == name[i],
    ensures
        splits_into_units(prefix, upto) == splits_into_units(name, upto),
    decreases upto,
{
    if upto > 2 {
        lemma_units_of_prefix(name, prefix, upto - 1);
        if upto > 3 {
            lemma_units_of_prefix(name, prefix, upto - 2);
        }
    }
}

impl CssVariableMachine {
    /// The machine after the first `n` positions of `input` were fed to it.
    pub open spec fn after(input: Seq<u8>, n: nat) -> CssVariableMachine
        decreases n,
    {
        if n == 0 {
            CssVariableMachine::fresh()
        } else {
            CssVariableMachine::after(input, (n - 1) as nat).step(input, (n - 1) as usize).0
        }
    }

    /// The spans that the machine reports for the first `n` positions of
    /// `input`.
    pub open spec fn reports(input: Seq<u8>, n: nat) -> Seq<Span>
        decreases n,
    {
        if n == 0 {
            Seq::empty()
        } else {
            CssVariableMachine::reports(input, (n - 1) as nat) + CssVariableMachine::after(
                input,
                (n - 1) as nat,
            ).step(input, (n - 1) as usize).1.found()
        }
    }

    /// The position that the machine looks at next, once it stands
    /// before position `pos`: it skips the two dashes and the byte behind
    /// a backslash.
    pub open spec fn resumes_at(self, pos: int) -> int {
        match self.skip_until_pos {
            Some(skip) => if pos < skip {
                skip as int
            } else {
                pos
            },
            None => pos,
        }
    }

    /// What the machine has read of a name is two dashes and whole units.
    pub open spec fn traced(self, input: Seq<u8>, pos: int) -> bool {
        &&& self.inv(pos)
        &&& self.state == State::Parsing ==> {
            let start = self.start_pos as int;
            let at = self.resumes_at(pos);
            &&& start + 2 <= at <= input.len()
            &&& input[start] == DASH
            &&& input[start + 1] == DASH
            &&& splits_into_units(input.skip(start), at - start)
        }
    }

    /// Feeding a position keeps what was read in units, and a span that is
    /// reported is the name of a CSS variable.
    pub proof fn lemma_step_traced(self, input: Seq<u8>, pos: usize)
        requires
            self.traced(input, pos as int),
            pos <= input.len() <= usize::MAX,
        ensures
            self.step(input, pos).0.traced(input, pos + 1),
            self.step(input, pos).1 matches MachineState::Done(span) ==> span.start + 2
                <= span.end == pos < input.len() && is_css_variable(span.of(input)),
    {
        reveal(CssVariableMachine::step);
        self.lemma_step(input, pos);
        let (machine, state) = self.step(input, pos);
        if self.state == State::Parsing {
            let start = self.start_pos as int;
            let rest = input.skip(start);
            if state is Done {
                let name = input.subrange(start, pos + 1);
                lemma_units_of_prefix(rest, name, pos - start);
                assert(name[name.len() - 1] == input[pos as int]);
            } else if machine.state == State::Parsing && !(self.skip_until_pos matches Some(
                skip,
            ) && pos < skip) {
                assert(rest[pos - start] == input[pos as int]);
                if machine.skip_until_pos is Some {
                    assert(rest[pos + 1 - start] == input[pos + 1]);
                }
            }
        }
    }

    /// However far the input was fed, what the machine has read of a name
    /// is two dashes and whole units.
    pub proof fn lemma_after_traced(input: Seq<u8>, n: nat)
        requires
            n <= input.len() <= usize::MAX,
        ensures
            CssVariableMachine::after(input, n).traced(input, n as int),
        decreases n,
    {
        if n > 0 {
            CssVariableMachine::lemma_after_traced(input, (n - 1) as nat);
            CssVariableMachine::after(input, (n - 1) as nat).lemma_step_traced(
                input,
                (n - 1) as usize,
            );
        }
    }

    /// Every span that the machine reports is the name of a CSS variable:
    /// it begins with `--`, and what follows are bytes that may stand in a
    /// name and escaped bytes, which take two bytes each and of which the
    /// second one can be any byte but a whitespace.
    pub proof fn lemma_reports_css_variables(input: Seq<u8>, n: nat)
        requires
            n <= input.len() <= usize::MAX,
        ensures
            forall|j: int|
                0 <= j < CssVariableMachine::reports(input, n).len() ==> {
                    let span = #[trigger] CssVariableMachine::reports(input, n)[j];
                    span.fits(n) && is_css_variable(span.of(input))
                },
        decreases n,
    {
        if n > 0 {
            let before = (n - 1) as nat;
            CssVariableMachine::lemma_reports_css_variables(input, before);
            CssVariableMachine::lemma_after_traced(input, before);
            CssVariableMachine::after(input, before).lemma_step_traced(input, before as usize);
            let earlier = CssVariableMachine::reports(input, before);
            let all = CssVariableMachine::reports(input, n);
            assert forall|j: int| 0 <= j < all.len() implies {
                let span = #[trigger] all[j];
                span.fits(n) && is_css_variable(span.of(input))
            } by {
                if j < earlier.len() {
                    assert(all[j] == earlier[j]);
                }
            }
        }
    }
}

/// A unit or the last byte of a name can begin at `at`.
pub open spec fn begins_unit(name: Seq<u8>, at: int) -> bool {
    0 <= at < name.len() && (in_name(name[at]) || (name[at] == BACKSLASH && at + 1 < name.len()
        && !is_whitespace(name[at + 1])))
}

/// Fed alone, the machine reads the name of a CSS variable unit by unit.
proof fn lemma_reads_units(name: Seq<u8>, upto: nat)
    requires
        name.len() <= usize::MAX,
        name.len() >= 3,
        name[0] == DASH,
        name[1] == DASH,
        2 <= upto < name.len(),
        splits_into_units(name, upto as int),
        begins_unit(name, upto as int),
    ensures
        CssVariableMachine::after(name, upto).state == State::Parsing,
        CssVariableMachine::after(name, upto).start_pos == 0,
        CssVariableMachine::after(name, upto).resumes_at(upto as int) == upto,
    decreases upto,
{
    reveal(CssVariableMachine::step);
    if upto == 2 {
        assert(CssVariableMachine::after(name, 0) == CssVariableMachine::fresh());
        let first = CssVariableMachine::after(name, 1);
        assert(first == CssVariableMachine::fresh().step(name, 0).0);
        assert(CssVariableMachine::after(name, 2) == first.step(name, 1).0);
    } else if in_name(name[upto - 1]) && splits_into_units(name, upto - 1) {
        lemma_reads_units(name, (upto - 1) as nat);
    } else {
        lemma_reads_units(name, (upto - 2) as nat);
        let before = CssVariableMachine::after(name, (upto - 2) as nat);
        let skipping = CssVariableMachine::after(name, (upto - 1) as nat);
        assert(skipping == before.step(name, (upto - 2) as usize).0);
        assert(CssVariableMachine::after(name, upto) == skipping.step(
            name,
            (upto - 1) as usize,
        ).0);
    }
}

/// Fed alone, the name of a CSS variable is reported whole at its last
/// byte.
pub proof fn lemma_css_variable_is_reported(name: Seq<u8>)
    requires
        is_css_variable(name),
        name.len() <= usize::MAX,
    ensures
        CssVariableMachine::reports(name, name.len()).len() > 0,
        CssVariableMachine::reports(name, name.len()).last() == (Span {
            start: 0,
            end: (name.len() - 1) as usize,
        }),
{
    reveal(CssVariableMachine::step);
    let last = (name.len() - 1) as nat;
    lemma_reads_units(name, last);
}

impl CssVariableMachine {
    /// Whenever the machine, fed from the first position on, reports a
    /// span, the span ends at the position fed, begins with `--`, holds at
    /// least one more byte and is the name of a CSS variable.
    pub proof fn lemma_done_is_css_variable(input: Seq<u8>, pos: usize)
        requires
            pos < input.len() <= usize::MAX,
        ensures
            CssVariableMachine::after(input, pos as nat).step(input, pos).1 matches MachineState::Done(
                span,
            ) ==> {
                &&& span.start + 2 <= span.end == pos
                &&& input[span.start as int] == DASH
                &&& input[span.start + 1] == DASH
                &&& is_css_variable(span.of(input))
            },
    {
        CssVariableMachine::lemma_after_traced(input, pos as nat);
        CssVariableMachine::after(input, pos as nat).lemma_step_traced(input, pos);
        match CssVariableMachine::after(input, pos as nat).step(input, pos).1 {
            MachineState::Done(span) => {
                let name = span.of(input);
                assert(name[0] == input[span.start as int]);
                assert(name[1] == input[span.start + 1]);
            },
            _ => {},
        }
    }
}

} // verus!
