//! Variants: a named variant or an arbitrary variant `[...]`, ended by `:`.

use vstd::prelude::*;
use crate::cursor::{byte_at, Cursor};
use crate::extractor::arbitrary_value_machine::{ArbitraryValueMachine, ArbitraryValueView};
use crate::extractor::bytes::{COLON, OPEN_BRACKET};
use crate::extractor::machine::{MachineState, Span};
use crate::extractor::named_variant_machine::{NamedVariantMachine, NamedVariantView};

verus! {

/// Where the machine stands in a variant.
#[derive(Debug, Clone, Copy, PartialEq, Eq, Structural)]
pub enum State {
    Idle,
    /// Inside a named variant: `hover:`.
    ParsingNamedVariant,
    /// Inside an arbitrary variant: `[&:hover]:`.
    ParsingArbitraryVariant,
    /// At the byte that has to be the `:` that ends the variant.
    ParseEnd,
}

/// Recognizes a variant, such as `hover:` or `[&:hover]:`.
#[derive(Debug)]
pub struct VariantMachine {
    /// Start position of the variant.
    start_pos: usize,
    /// Current state of the machine.
    state: State,
    arbitrary_value_machine: ArbitraryValueMachine,
    named_variant_machine: NamedVariantMachine,
}

/// The variant machine as specifications see it.
pub struct VariantView {
    pub start_pos: usize,
    pub state: State,
    pub arbitrary_value_machine: ArbitraryValueView,
    pub named_variant_machine: NamedVariantView,
}

impl View for VariantMachine {
    type V = VariantView;

    closed spec fn view(&self) -> VariantView {
        VariantView {
            start_pos: self.start_pos,
            state: self.state,
            arbitrary_value_machine: self.arbitrary_value_machine@,
            named_variant_machine: self.named_variant_machine@,
        }
    }
}

impl VariantView {
    /// The machine as it is constructed and after every reset.
    pub open spec fn fresh() -> VariantView {
        VariantView {
            start_pos: 0,
            state: State::Idle,
            arbitrary_value_machine: ArbitraryValueView::fresh(),
            named_variant_machine: NamedVariantView::fresh(),
        }
    }

    /// Holds when all positions fed so far lie before `pos`.
    pub open spec fn inv(self, pos: int) -> bool {
        &&& self.arbitrary_value_machine.inv(pos)
        &&& self.named_variant_machine.inv(pos)
        &&& self.state != State::Idle ==> self.start_pos < pos
    }

    /// The step of the machine at the first byte of a variant.
    pub open spec fn step_idle(self, input: Seq<u8>, pos: usize) -> (VariantView, MachineState) {
        let curr = byte_at(input, pos as int);
        if curr == OPEN_BRACKET {
            (
                VariantView {
                    start_pos: pos,
                    state: State::ParsingArbitraryVariant,
                    arbitrary_value_machine: self.arbitrary_value_machine.step(input, pos).0,
                    ..self
                },
                MachineState::Parsing,
            )
        } else {
            let (named_variant_machine, inner) = self.named_variant_machine.step(input, pos);
            match inner {
                MachineState::Parsing => (
                    VariantView {
                        start_pos: pos,
                        state: State::ParsingNamedVariant,
                        named_variant_machine,
                        ..self
                    },
                    inner,
                ),
                _ => (VariantView::fresh(), inner),
            }
        }
    }

    /// The machine after position `pos` of `input` was fed to it, and what it
    /// reports for that position.
    #[verifier::opaque]
    pub open spec fn step(self, input: Seq<u8>, pos: usize) -> (VariantView, MachineState) {
        let curr = byte_at(input, pos as int);
        let next = byte_at(input, pos + 1);
        match self.state {
            State::Idle => self.step_idle(input, pos),
            State::ParsingNamedVariant => {
                let (named_variant_machine, inner) = self.named_variant_machine.step(input, pos);
                match inner {
                    MachineState::Idle => (VariantView::fresh(), MachineState::Idle),
                    MachineState::Parsing => (
                        VariantView { named_variant_machine, ..self },
                        MachineState::Parsing,
                    ),
                    MachineState::Done(_) => (
                        VariantView::fresh(),
                        MachineState::Done(Span { start: self.start_pos, end: pos }),
                    ),
                }
            },
            State::ParsingArbitraryVariant => {
                let (arbitrary_value_machine, inner) = self.arbitrary_value_machine.step(
                    input,
                    pos,
                );
                match inner {
                    MachineState::Idle => (VariantView::fresh(), MachineState::Idle),
                    MachineState::Parsing => (
                        VariantView { arbitrary_value_machine, ..self },
                        MachineState::Parsing,
                    ),
                    MachineState::Done(_) => {
                        if next == COLON {
                            (
                                VariantView {
                                    arbitrary_value_machine,
                                    state: State::ParseEnd,
                                    ..self
                                },
                                MachineState::Parsing,
                            )
                        } else {
                            (VariantView::fresh(), MachineState::Idle)
                        }
                    },
                }
            },
            State::ParseEnd => {
                if curr == COLON {
                    (
                        VariantView::fresh(),
                        MachineState::Done(Span { start: self.start_pos, end: pos }),
                    )
                } else {
                    (VariantView::fresh(), MachineState::Idle)
                }
            },
        }
    }

    /// Feeding positions in order keeps the machine consistent, and a span
    /// that it reports is a range of the input of at least two bytes that
    /// ends at the position fed.
    /// Behind a report the machine is as it was constructed.
    pub proof fn lemma_step(self, input: Seq<u8>, pos: usize)
        requires
            self.inv(pos as int),
            pos <= input.len() <= usize::MAX,
        ensures
            self.step(input, pos).0.inv(pos + 1),
            self.step(input, pos).1 matches MachineState::Done(span) ==> span.start < span.end
                && span.end == pos && pos < input.len(),
            self.step(input, pos).1 is Done ==> self.step(input, pos).0 == VariantView::fresh(),
    {
        reveal(VariantView::step);
        self.arbitrary_value_machine.lemma_step(input, pos);
        self.named_variant_machine.lemma_step(input, pos);
    }
}

impl Default for VariantMachine {
    fn default() -> (machine: Self)
        ensures
            machine@ == VariantView::fresh(),
    {
        VariantMachine::new()
    }
}

impl VariantMachine {
    /// A machine that has read nothing yet.
    pub fn new() -> (machine: Self)
        ensures
            machine@ == VariantView::fresh(),
    {
        VariantMachine {
            start_pos: 0,
            state: State::Idle,
            arbitrary_value_machine: ArbitraryValueMachine::new(),
            named_variant_machine: NamedVariantMachine::new(),
        }
    }

    /// Puts the machine back into the state it was constructed in.
    pub fn reset(&mut self)
        ensures
            final(self)@ == VariantView::fresh(),
    {
        *self = VariantMachine::new();
    }

    fn restart(&mut self) -> (state: MachineState)
        ensures
            final(self)@ == VariantView::fresh(),
            state == MachineState::Idle,
    {
        self.reset();
        MachineState::Idle
    }

    fn done(&mut self, start: usize, cursor: &Cursor<'_>) -> (state: MachineState)
        ensures
            final(self)@ == VariantView::fresh(),
            state == MachineState::Done(Span { start, end: cursor.pos }),
    {
        self.reset();
        MachineState::Done(Span::new(start, cursor.pos))
    }

    fn parse_arbitrary_variant(&mut self, cursor: &Cursor<'_>) -> (state: MachineState)
        requires
            cursor.wf(),
            old(self)@.arbitrary_value_machine.inv(cursor.pos as int),
        ensures
            final(self)@ == (VariantView {
                start_pos: cursor.pos,
                state: State::ParsingArbitraryVariant,
                arbitrary_value_machine: old(self)@.arbitrary_value_machine.step(
                    cursor.input@,
                    cursor.pos,
                ).0,
                ..old(self)@
            }),
            state == MachineState::Parsing,
    {
        self.start_pos = cursor.pos;
        self.arbitrary_value_machine.next(cursor);
        self.state = State::ParsingArbitraryVariant;
        MachineState::Parsing
    }

    fn parse_named_variant(&mut self, cursor: &Cursor<'_>) -> (state: MachineState)
        requires
            cursor.wf(),
            old(self)@.named_variant_machine.inv(cursor.pos as int),
        ensures
            final(self)@ == (VariantView {
                start_pos: cursor.pos,
                state: State::ParsingNamedVariant,
                named_variant_machine: old(self)@.named_variant_machine.step(
                    cursor.input@,
                    cursor.pos,
                ).0,
                ..old(self)@
            }),
            state == old(self)@.named_variant_machine.step(cursor.input@, cursor.pos).1,
    {
        self.start_pos = cursor.pos;
        self.state = State::ParsingNamedVariant;
        self.named_variant_machine.next(cursor)
    }

    fn parse_end(&mut self) -> (state: MachineState)
        ensures
            final(self)@ == (VariantView { state: State::ParseEnd, ..old(self)@ }),
            state == MachineState::Parsing,
    {
        self.state = State::ParseEnd;
        MachineState::Parsing
    }

    /// Feeds the position of `cursor` to the machine.
    pub fn next(&mut self, cursor: &Cursor<'_>) -> (state: MachineState)
        requires
            cursor.wf(),
            old(self)@.inv(cursor.pos as int),
        ensures
            (final(self)@, state) == old(self)@.step(cursor.input@, cursor.pos),
            final(self)@.inv(cursor.pos + 1),
            state matches MachineState::Done(span) ==> span.start < span.end && span.end
                == cursor.pos && cursor.pos < cursor.input@.len(),
            state is Done ==> final(self)@ == VariantView::fresh(),
    {
        proof {
            reveal(VariantView::step);
            old(self)@.lemma_step(cursor.input@, cursor.pos);
        }
        match self.state {
            State::Idle => {
                if cursor.curr == OPEN_BRACKET {
                    // An arbitrary variant: `[&:hover]:`.
                    self.parse_arbitrary_variant(cursor)
                } else {
                    match self.parse_named_variant(cursor) {
                        MachineState::Idle => self.restart(),
                        MachineState::Parsing => MachineState::Parsing,
                        MachineState::Done(span) => {
                            self.reset();
                            MachineState::Done(span)
                        },
                    }
                }
            },
            State::ParsingNamedVariant => match self.named_variant_machine.next(cursor) {
                MachineState::Idle => self.restart(),
                MachineState::Parsing => MachineState::Parsing,
                MachineState::Done(_) => self.done(self.start_pos, cursor),
            },
            State::ParsingArbitraryVariant => match self.arbitrary_value_machine.next(cursor) {
                MachineState::Idle => self.restart(),
                MachineState::Parsing => MachineState::Parsing,
                MachineState::Done(_) => {
                    if cursor.next == COLON {
                        // An arbitrary variant must be followed by the `:`.
                        self.parse_end()
                    } else {
                        self.restart()
                    }
                },
            },
            State::ParseEnd => {
                if cursor.curr == COLON {
                    self.done(self.start_pos, cursor)
                } else {
                    self.restart()
                }
            },
        }
    }
}

impl VariantView {
    /// A variant ends with `:`.
    pub proof fn lemma_done_at(self, input: Seq<u8>, pos: usize)
        ensures
            self.step(input, pos).1 is Done ==> byte_at(input, pos as int) == COLON,
    {
        reveal(VariantView::step);
        self.named_variant_machine.lemma_done_at(input, pos);
    }
}

} // verus!
