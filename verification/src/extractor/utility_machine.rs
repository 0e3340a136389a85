//! Utilities: a named utility or an arbitrary property, with an optional
//! modifier and an optional important marker `!` on one side.

use vstd::prelude::*;
use crate::cursor::{byte_at, Cursor};
use crate::extractor::arbitrary_property_machine::{
    ArbitraryPropertyMachine, ArbitraryPropertyView,
};
use crate::extractor::bytes::{
    is_alnum, is_alpha, is_lower, AT, BANG, CLOSE_BRACKET, CLOSE_PAREN, DASH, DOT, OPEN_BRACKET,
    SLASH, UNDERSCORE,
};
use crate::extractor::machine::{MachineState, Span};
use crate::extractor::modifier_machine::{ModifierMachine, ModifierView};
use crate::extractor::named_utility_machine::{NamedUtilityMachine, NamedUtilityView};

verus! {

/// Where the machine stands in a utility.
#[derive(Debug, Clone, Copy, PartialEq, Eq, Structural)]
pub enum State {
    Idle,
    /// Inside a named utility: `p-2.5`.
    ParsingNamedUtility,
    /// Inside an arbitrary property: `[color:red]`.
    ParsingArbitraryProperty,
    /// Inside the modifier: `bg-red-500/20`, from the `/` on.
    ParsingModifier,
    /// At the byte that has to be the important marker `!`.
    ParsingImportant,
}

/// Recognizes a utility, such as `bg-red-500/20!`.
#[derive(Debug)]
pub struct UtilityMachine {
    /// Start position of the utility.
    start_pos: usize,
    /// Current state of the machine.
    state: State,
    arbitrary_property_machine: ArbitraryPropertyMachine,
    named_utility_machine: NamedUtilityMachine,
    modifier_machine: ModifierMachine,
}

/// The utility machine as specifications see it.
pub struct UtilityView {
    pub start_pos: usize,
    pub state: State,
    pub arbitrary_property_machine: ArbitraryPropertyView,
    pub named_utility_machine: NamedUtilityView,
    pub modifier_machine: ModifierView,
}

impl View for UtilityMachine {
    type V = UtilityView;

    closed spec fn view(&self) -> UtilityView {
        UtilityView {
            start_pos: self.start_pos,
            state: self.state,
            arbitrary_property_machine: self.arbitrary_property_machine@,
            named_utility_machine: self.named_utility_machine@,
            modifier_machine: self.modifier_machine@,
        }
    }
}

impl UtilityView {
    /// The machine as it is constructed and after every reset.
    pub open spec fn fresh() -> UtilityView {
        UtilityView {
            start_pos: 0,
            state: State::Idle,
            arbitrary_property_machine: ArbitraryPropertyView::fresh(),
            named_utility_machine: NamedUtilityView::fresh(),
            modifier_machine: ModifierView::fresh(),
        }
    }

    /// Holds when all positions fed so far lie before `pos`.
    pub open spec fn inv(self, pos: int) -> bool {
        &&& self.arbitrary_property_machine.inv(pos)
        &&& self.named_utility_machine.inv(pos)
        &&& self.modifier_machine.inv(pos)
        &&& self.state != State::Idle ==> self.start_pos < pos
    }

    /// What the machine does once the machine that it delegates to has
    /// reported `inner`: after the utility itself a modifier or the important
    /// marker can follow, after a modifier only the important marker.
    pub open spec fn finish(self, inner: MachineState, pos: usize, next: u8, modifier_allowed: bool) -> (
        UtilityView,
        MachineState,
    ) {
        match inner {
            MachineState::Idle => (UtilityView::fresh(), MachineState::Idle),
            MachineState::Parsing => (self, MachineState::Parsing),
            MachineState::Done(_) => {
                if next == SLASH {
                    if modifier_allowed {
                        (
                            UtilityView { state: State::ParsingModifier, ..self },
                            MachineState::Parsing,
                        )
                    } else {
                        (UtilityView::fresh(), MachineState::Idle)
                    }
                } else if next == BANG {
                    (UtilityView { state: State::ParsingImportant, ..self }, MachineState::Parsing)
                } else {
                    (
                        UtilityView::fresh(),
                        MachineState::Done(Span { start: self.start_pos, end: pos }),
                    )
                }
            },
        }
    }

    /// The step of the machine at the first byte of a utility.
    pub open spec fn step_idle(self, input: Seq<u8>, pos: usize) -> (UtilityView, MachineState) {
        let curr = byte_at(input, pos as int);
        let next = byte_at(input, pos + 1);
        if curr == BANG && next == OPEN_BRACKET {
            (
                UtilityView { start_pos: pos, state: State::ParsingArbitraryProperty, ..self },
                MachineState::Parsing,
            )
        } else if curr == OPEN_BRACKET {
            (
                UtilityView {
                    start_pos: pos,
                    state: State::ParsingArbitraryProperty,
                    arbitrary_property_machine: self.arbitrary_property_machine.step(
                        input,
                        pos,
                    ).0,
                    ..self
                },
                MachineState::Parsing,
            )
        } else if (curr == BANG && (is_lower(next) || next == AT)) || is_lower(curr) || (curr
            == DASH && is_alpha(next)) {
            let (named_utility_machine, inner) = self.named_utility_machine.step(input, pos);
            if inner is Done {
                (UtilityView::fresh(), inner)
            } else {
                (
                    UtilityView {
                        start_pos: pos,
                        state: State::ParsingNamedUtility,
                        named_utility_machine,
                        ..self
                    },
                    inner,
                )
            }
        } else {
            (self, MachineState::Idle)
        }
    }

    /// The machine after position `pos` of `input` was fed to it, and what it
    /// reports for that position.
    #[verifier::opaque]
    pub open spec fn step(self, input: Seq<u8>, pos: usize) -> (UtilityView, MachineState) {
        let curr = byte_at(input, pos as int);
        let next = byte_at(input, pos + 1);
        match self.state {
            State::Idle => self.step_idle(input, pos),
            State::ParsingNamedUtility => {
                let (named_utility_machine, inner) = self.named_utility_machine.step(input, pos);
                (UtilityView { named_utility_machine, ..self }).finish(inner, pos, next, true)
            },
            State::ParsingArbitraryProperty => {
                let (arbitrary_property_machine, inner) = self.arbitrary_property_machine.step(
                    input,
                    pos,
                );
                (UtilityView { arbitrary_property_machine, ..self }).finish(
                    inner,
                    pos,
                    next,
                    true,
                )
            },
            State::ParsingModifier => {
                let (modifier_machine, inner) = self.modifier_machine.step(input, pos);
                (UtilityView { modifier_machine, ..self }).finish(inner, pos, next, false)
            },
            State::ParsingImportant => {
                if curr == BANG && byte_at(input, self.start_pos as int) != BANG {
                    (
                        UtilityView::fresh(),
                        MachineState::Done(Span { start: self.start_pos, end: pos }),
                    )
                } else {
                    (UtilityView::fresh(), MachineState::Idle)
                }
            },
        }
    }

    /// Feeding positions in order keeps the machine consistent, and a span
    /// that it reports is a non-empty range of the input that ends at the
    /// position fed.
    /// Behind a report the machine is as it was constructed.
    pub proof fn lemma_step(self, input: Seq<u8>, pos: usize)
        requires
            self.inv(pos as int),
            pos <= input.len() <= usize::MAX,
        ensures
            self.step(input, pos).0.inv(pos + 1),
            self.step(input, pos).1 matches MachineState::Done(span) ==> span.start <= span.end
                && span.end == pos && pos < input.len(),
            self.step(input, pos).1 is Done ==> self.step(input, pos).0 == UtilityView::fresh(),
    {
        reveal(UtilityView::step);
        self.arbitrary_property_machine.lemma_step(input, pos);
        self.named_utility_machine.lemma_step(input, pos);
        self.modifier_machine.lemma_step(input, pos);
    }
}

impl Default for UtilityMachine {
    fn default() -> (machine: Self)
        ensures
            machine@ == UtilityView::fresh(),
    {
        UtilityMachine::new()
    }
}

impl UtilityMachine {
    /// A machine that has read nothing yet.
    pub fn new() -> (machine: Self)
        ensures
            machine@ == UtilityView::fresh(),
    {
        UtilityMachine {
            start_pos: 0,
            state: State::Idle,
            arbitrary_property_machine: ArbitraryPropertyMachine::new(),
            named_utility_machine: NamedUtilityMachine::new(),
            modifier_machine: ModifierMachine::new(),
        }
    }

    /// Puts the machine back into the state it was constructed in.
    pub fn reset(&mut self)
        ensures
            final(self)@ == UtilityView::fresh(),
    {
        *self = UtilityMachine::new();
    }

    fn restart(&mut self) -> (state: MachineState)
        ensures
            final(self)@ == UtilityView::fresh(),
            state == MachineState::Idle,
    {
        self.reset();
        MachineState::Idle
    }

    fn done(&mut self, start: usize, cursor: &Cursor<'_>) -> (state: MachineState)
        ensures
            final(self)@ == UtilityView::fresh(),
            state == MachineState::Done(Span { start, end: cursor.pos }),
    {
        self.reset();
        MachineState::Done(Span::new(start, cursor.pos))
    }

    fn parse_arbitrary_property(&mut self, cursor: &Cursor<'_>) -> (state: MachineState)
        ensures
            final(self)@ == (UtilityView {
                start_pos: cursor.pos,
                state: State::ParsingArbitraryProperty,
                ..old(self)@
            }),
            state == MachineState::Parsing,
    {
        self.start_pos = cursor.pos;
        self.state = State::ParsingArbitraryProperty;
        MachineState::Parsing
    }

    fn parse_named(&mut self, cursor: &Cursor<'_>) -> (state: MachineState)
        requires
            cursor.wf(),
            old(self)@.named_utility_machine.inv(cursor.pos as int),
        ensures
            state == old(self)@.named_utility_machine.step(cursor.input@, cursor.pos).1,
            state is Done ==> final(self)@ == UtilityView::fresh(),
            !(state is Done) ==> final(self)@ == (UtilityView {
                start_pos: cursor.pos,
                state: State::ParsingNamedUtility,
                named_utility_machine: old(self)@.named_utility_machine.step(
                    cursor.input@,
                    cursor.pos,
                ).0,
                ..old(self)@
            }),
    {
        self.start_pos = cursor.pos;
        self.state = State::ParsingNamedUtility;
        match self.named_utility_machine.next(cursor) {
            // A utility of a single byte.
            MachineState::Done(span) => {
                self.reset();
                MachineState::Done(span)
            },
            state => state,
        }
    }

    fn parse_modifier(&mut self) -> (state: MachineState)
        ensures
            final(self)@ == (UtilityView { state: State::ParsingModifier, ..old(self)@ }),
            state == MachineState::Parsing,
    {
        self.state = State::ParsingModifier;
        MachineState::Parsing
    }

    fn parse_important(&mut self) -> (state: MachineState)
        ensures
            final(self)@ == (UtilityView { state: State::ParsingImportant, ..old(self)@ }),
            state == MachineState::Parsing,
    {
        self.state = State::ParsingImportant;
        MachineState::Parsing
    }

    /// Goes on after the named utility or the arbitrary property is
    /// complete.
    fn after_utility(&mut self, cursor: &Cursor<'_>) -> (state: MachineState)
        ensures
            (final(self)@, state) == old(self)@.finish(
                MachineState::Done(Span { start: 0, end: 0 }),
                cursor.pos,
                cursor.next,
                true,
            ),
    {
        if cursor.next == SLASH {
            // A modifier may follow: `bg-red-500/`.
            self.parse_modifier()
        } else if cursor.next == BANG {
            // The important marker follows: `bg-red-500!`.
            self.parse_important()
        } else {
            self.done(self.start_pos, cursor)
        }
    }

    /// Goes on after the modifier is complete.
    fn after_modifier(&mut self, cursor: &Cursor<'_>) -> (state: MachineState)
        ensures
            (final(self)@, state) == old(self)@.finish(
                MachineState::Done(Span { start: 0, end: 0 }),
                cursor.pos,
                cursor.next,
                false,
            ),
    {
        if cursor.next == SLASH {
            // A modifier cannot follow a modifier.
            self.restart()
        } else if cursor.next == BANG {
            self.parse_important()
        } else {
            self.done(self.start_pos, cursor)
        }
    }

    /// Feeds the first position of a utility to the machine.
    fn next_when_idle(&mut self, cursor: &Cursor<'_>) -> (state: MachineState)
        requires
            cursor.wf(),
            old(self)@.inv(cursor.pos as int),
        ensures
            (final(self)@, state) == old(self)@.step_idle(cursor.input@, cursor.pos),
    {
        let curr = cursor.curr;
        let next = cursor.next;
        if curr == BANG && next == OPEN_BRACKET {
            // The important marker before an arbitrary property:
            // `![color:red]`.
            self.parse_arbitrary_property(cursor)
        } else if curr == OPEN_BRACKET {
            self.arbitrary_property_machine.next(cursor);
            self.parse_arbitrary_property(cursor)
        } else if curr == BANG && (is_lower(next) || next == AT) {
            // The important marker before a named utility: `!bg-red-500`.
            self.parse_named(cursor)
        } else if is_lower(curr) || (curr == DASH && is_alpha(next)) {
            self.parse_named(cursor)
        } else {
            MachineState::Idle
        }
    }

    /// Feeds the position of `cursor` to the machine.
    pub fn next(&mut self, cursor: &Cursor<'_>) -> (state: MachineState)
        requires
            cursor.wf(),
            old(self)@.inv(cursor.pos as int),
        ensures
            (final(self)@, state) == old(self)@.step(cursor.input@, cursor.pos),
            final(self)@.inv(cursor.pos + 1),
            state matches MachineState::Done(span) ==> span.start <= span.end && span.end
                == cursor.pos && cursor.pos < cursor.input@.len(),
            state is Done ==> final(self)@ == UtilityView::fresh(),
    {
        proof {
            reveal(UtilityView::step);
            old(self)@.lemma_step(cursor.input@, cursor.pos);
        }
        match self.state {
            State::Idle => self.next_when_idle(cursor),
            State::ParsingNamedUtility => match self.named_utility_machine.next(cursor) {
                MachineState::Idle => self.restart(),
                MachineState::Parsing => MachineState::Parsing,
                MachineState::Done(_) => self.after_utility(cursor),
            },
            State::ParsingArbitraryProperty => match self.arbitrary_property_machine.next(cursor) {
                MachineState::Idle => self.restart(),
                MachineState::Parsing => MachineState::Parsing,
                MachineState::Done(_) => self.after_utility(cursor),
            },
            State::ParsingModifier => match self.modifier_machine.next(cursor) {
                MachineState::Idle => self.restart(),
                MachineState::Parsing => MachineState::Parsing,
                MachineState::Done(_) => self.after_modifier(cursor),
            },
            State::ParsingImportant => {
                // The marker is only valid if the utility did not start
                // with one: `!bg-red-500!` is no utility.
                if cursor.curr == BANG && cursor.input[self.start_pos] != BANG {
                    self.done(self.start_pos, cursor)
                } else {
                    self.restart()
                }
            },
        }
    }
}

/// A byte with which a utility can end.
pub open spec fn ends_utility(byte: u8) -> bool {
    is_alnum(byte) || byte == UNDERSCORE || byte == DOT || byte == DASH || byte == CLOSE_BRACKET
        || byte == CLOSE_PAREN || byte == BANG
}

impl UtilityView {
    /// A utility ends with a letter, a digit, `_`, `.`, `-`, `]`, `)` or
    /// `!`, and so never with the `:` that ends a variant.
    pub proof fn lemma_done_at(self, input: Seq<u8>, pos: usize)
        ensures
            self.step(input, pos).1 is Done ==> ends_utility(byte_at(input, pos as int)),
    {
        reveal(UtilityView::step);
        self.named_utility_machine.lemma_done_at(input, pos);
        self.arbitrary_property_machine.lemma_done_at(input, pos);
        self.modifier_machine.lemma_done_at(input, pos);
    }
}

} // verus!
