//! Quoted strings: `"..."`, `'...'` and `` `...` ``.

use vstd::prelude::*;
use crate::cursor::{byte_at, remaining, Cursor};
use crate::extractor::bytes::{
    is_quote, is_whitespace, BACKSLASH, BACKTICK, DOUBLE_QUOTE, NUL, SINGLE_QUOTE,
};
use crate::extractor::machine::{MachineState, Span};

verus! {

/// The classes of bytes that the string machine tells apart.
#[derive(Debug, Clone, Copy, PartialEq, Eq, Structural)]
pub enum Class {
    SingleQuote,
    DoubleQuote,
    Backtick,
    Escape,
    Whitespace,
    End,
    Other,
}

impl Class {
    /// The class of a byte.
    pub open spec fn of(byte: u8) -> Class {
        if byte == DOUBLE_QUOTE {
            Class::DoubleQuote
        } else if byte == SINGLE_QUOTE {
            Class::SingleQuote
        } else if byte == BACKTICK {
            Class::Backtick
        } else if byte == BACKSLASH {
            Class::Escape
        } else if is_whitespace(byte) {
            Class::Whitespace
        } else if byte == NUL {
            Class::End
        } else {
            Class::Other
        }
    }

    /// The class of the quote that opens and closes a string of `kind`.
    pub open spec fn quote(kind: QuoteKind) -> Class {
        match kind {
            QuoteKind::Single => Class::SingleQuote,
            QuoteKind::Double => Class::DoubleQuote,
            QuoteKind::Backtick => Class::Backtick,
        }
    }
}

/// Sorts a byte into its class.
pub fn classify(byte: u8) -> (class: Class)
    ensures
        class == Class::of(byte),
{
    match byte {
        DOUBLE_QUOTE => Class::DoubleQuote,
        SINGLE_QUOTE => Class::SingleQuote,
        BACKTICK => Class::Backtick,
        BACKSLASH => Class::Escape,
        NUL => Class::End,
        _ => if is_whitespace(byte) {
            Class::Whitespace
        } else {
            Class::Other
        },
    }
}

/// The three kinds of quotes.
#[derive(Debug, Clone, Copy, PartialEq, Eq, Structural)]
pub enum QuoteKind {
    Single,
    Double,
    Backtick,
}

/// Where the machine stands in a string.
#[derive(Debug, Clone, Copy, PartialEq, Eq, Structural)]
pub enum State {
    Idle,
    /// Inside a string that was opened by a quote of the given kind.
    Parsing(QuoteKind),
}

/// Recognizes a quoted string without raw whitespace in it.
#[derive(Debug, Clone, Copy)]
pub struct StringMachine {
    /// Start position of the string.
    pub start_pos: usize,
    /// Ignore the bytes before this position.
    pub skip_until_pos: Option<usize>,
    /// Current state of the machine.
    pub state: State,
}

impl Default for StringMachine {
    fn default() -> (machine: Self)
        ensures
            machine == StringMachine::fresh(),
    {
        StringMachine::new()
    }
}

impl StringMachine {
    /// The machine as it is constructed and after every reset.
    pub open spec fn fresh() -> StringMachine {
        StringMachine { start_pos: 0, skip_until_pos: None, state: State::Idle }
    }

    /// Holds when all positions fed so far lie before `pos`.
    pub open spec fn inv(self, pos: int) -> bool {
        match self.state {
            State::Idle => self.skip_until_pos is None,
            State::Parsing(_) => {
                &&& self.start_pos < pos
                &&& self.skip_until_pos matches Some(skip) ==> skip <= pos + 1
            },
        }
    }

    /// The machine after position `pos` of `input` was fed to it, and what it
    /// reports for that position.
    #[verifier::opaque]
    pub open spec fn step(self, input: Seq<u8>, pos: usize) -> (StringMachine, MachineState) {
        let curr = Class::of(byte_at(input, pos as int));
        let next = Class::of(byte_at(input, pos + 1));
        let at_end = pos + 1 >= input.len();
        if self.skip_until_pos matches Some(skip) && pos < skip {
            (self, MachineState::Parsing)
        } else {
            let woken = StringMachine { skip_until_pos: None, ..self };
            match self.state {
                State::Idle => match curr {
                    Class::SingleQuote => (woken.opened(QuoteKind::Single, pos), MachineState::Parsing),
                    Class::DoubleQuote => (woken.opened(QuoteKind::Double, pos), MachineState::Parsing),
                    Class::Backtick => (woken.opened(QuoteKind::Backtick, pos), MachineState::Parsing),
                    _ => (woken, MachineState::Idle),
                },
                State::Parsing(kind) => {
                    if curr == Class::Escape && next == Class::Whitespace {
                        (StringMachine::fresh(), MachineState::Idle)
                    } else if curr == Class::Escape && !at_end {
                        (
                            StringMachine { skip_until_pos: Some((pos + 2) as usize), ..woken },
                            MachineState::Parsing,
                        )
                    } else if curr == Class::quote(kind) {
                        (
                            StringMachine::fresh(),
                            MachineState::Done(Span { start: self.start_pos, end: pos }),
                        )
                    } else if curr == Class::Whitespace {
                        (StringMachine::fresh(), MachineState::Idle)
                    } else {
                        (woken, MachineState::Parsing)
                    }
                },
            }
        }
    }

    /// The machine after it saw the opening quote of a string at `pos`.
    pub open spec fn opened(self, kind: QuoteKind, pos: usize) -> StringMachine {
        StringMachine { start_pos: pos, state: State::Parsing(kind), ..self }
    }

    /// Feeding positions in order keeps the machine consistent, and a span
    /// that it reports is a non-empty range of the input that ends at the
    /// position fed.
    /// Behind a report the machine is as it was constructed.
    pub proof fn lemma_step(self, input: Seq<u8>, pos: usize)
        requires
            self.inv(pos as int),
            pos <= input.len(),
        ensures
            self.step(input, pos).0.inv(pos + 1),
            self.step(input, pos).1 matches MachineState::Done(span) ==> span.start < span.end
                && span.end == pos && pos < input.len(),
            self.step(input, pos).1 is Done ==> self.step(input, pos).0 == StringMachine::fresh(),
    {
        reveal(StringMachine::step);
    }

    /// A machine that has read nothing yet.
    pub fn new() -> (machine: Self)
        ensures
            machine == StringMachine::fresh(),
    {
        StringMachine { start_pos: 0, skip_until_pos: None, state: State::Idle }
    }

    /// Puts the machine back into the state it was constructed in.
    pub fn reset(&mut self)
        ensures
            *final(self) == StringMachine::fresh(),
    {
        *self = StringMachine::new();
    }

    fn restart(&mut self) -> (state: MachineState)
        ensures
            *final(self) == StringMachine::fresh(),
            state == MachineState::Idle,
    {
        self.reset();
        MachineState::Idle
    }

    fn done(&mut self, start: usize, cursor: &Cursor<'_>) -> (state: MachineState)
        ensures
            *final(self) == StringMachine::fresh(),
            state == MachineState::Done(Span { start, end: cursor.pos }),
    {
        self.reset();
        MachineState::Done(Span::new(start, cursor.pos))
    }

    /// Feeds the position of `cursor` to the machine.
    pub fn next(&mut self, cursor: &Cursor<'_>) -> (state: MachineState)
        requires
            cursor.wf(),
            old(self).inv(cursor.pos as int),
        ensures
            (*final(self), state) == old(self).step(cursor.input@, cursor.pos),
            final(self).inv(cursor.pos + 1),
            state matches MachineState::Done(span) ==> span.start < span.end && span.end
                == cursor.pos && cursor.pos < cursor.input@.len(),
            state is Done ==> *final(self) == StringMachine::fresh(),
    {
        proof {
            reveal(StringMachine::step);
            old(self).lemma_step(cursor.input@, cursor.pos);
        }
        match self.skip_until_pos {
            Some(skip_until) if cursor.pos < skip_until => return MachineState::Parsing,
            Some(_) => self.skip_until_pos = None,
            None => {},
        }

        let class_curr = classify(cursor.curr);
        let class_next = classify(cursor.next);

        match self.state {
            State::Idle => match class_curr {
                Class::SingleQuote => {
                    self.start_pos = cursor.pos;
                    self.state = State::Parsing(QuoteKind::Single);
                    MachineState::Parsing
                },
                Class::DoubleQuote => {
                    self.start_pos = cursor.pos;
                    self.state = State::Parsing(QuoteKind::Double);
                    MachineState::Parsing
                },
                Class::Backtick => {
                    self.start_pos = cursor.pos;
                    self.state = State::Parsing(QuoteKind::Backtick);
                    MachineState::Parsing
                },
                _ => MachineState::Idle,
            },
            State::Parsing(kind) => match (class_curr, class_next) {
                (Class::Escape, Class::Whitespace) => self.restart(),
                (Class::Escape, _) if !cursor.at_end => {
                    self.skip_until_pos = Some(cursor.pos + 2);
                    MachineState::Parsing
                },
                (Class::SingleQuote, _) if kind == QuoteKind::Single => {
                    self.done(self.start_pos, cursor)
                },
                (Class::DoubleQuote, _) if kind == QuoteKind::Double => {
                    self.done(self.start_pos, cursor)
                },
                (Class::Backtick, _) if kind == QuoteKind::Backtick => {
                    self.done(self.start_pos, cursor)
                },
                (Class::Whitespace, _) => self.restart(),
                _ => MachineState::Parsing,
            },
        }
    }
}

/// How a string ends.
pub enum Ending {
    /// The closing quote stands at this position.
    Closed(int),
    /// A whitespace, escaped or not, stands in the string.
    Broken,
    /// The input ends before the string does.
    Open,
}

/// How the string ends that `quote` has opened, read from `pos` on. A
/// backslash and the byte behind it are read as one.
pub open spec fn ending(input: Seq<u8>, quote: u8, pos: int) -> Ending
    decreases remaining(input, pos),
{
    if pos < 0 || pos >= input.len() {
        Ending::Open
    } else if input[pos] == BACKSLASH {
        if is_whitespace(byte_at(input, pos + 1)) {
            Ending::Broken
        } else if pos + 1 < input.len() {
            ending(input, quote, pos + 2)
        } else {
            Ending::Open
        }
    } else if input[pos] == quote {
        Ending::Closed(pos)
    } else if is_whitespace(input[pos]) {
        Ending::Broken
    } else {
        ending(input, quote, pos + 1)
    }
}

/// The input is one string and nothing else: it begins with a quote, and
/// the quote that closes it is its last byte.
pub open spec fn is_terminated_string(input: Seq<u8>) -> bool {
    &&& input.len() >= 2
    &&& is_quote(input[0])
    &&& ending(input, input[0], 1) == Ending::Closed(input.len() - 1)
}

/// The input begins with a quote and ends before the string does.
pub open spec fn is_unterminated_string(input: Seq<u8>) -> bool {
    &&& input.len() >= 1
    &&& is_quote(input[0])
    &&& ending(input, input[0], 1) == Ending::Open
}

/// The kind of quote that a byte is.
pub open spec fn kind_of(quote: u8) -> QuoteKind {
    if quote == SINGLE_QUOTE {
        QuoteKind::Single
    } else if quote == DOUBLE_QUOTE {
        QuoteKind::Double
    } else {
        QuoteKind::Backtick
    }
}

impl StringMachine {
    /// The machine after the first `n` positions of `input` were fed to it.
    pub open spec fn after(input: Seq<u8>, n: nat) -> StringMachine
        decreases n,
    {
        if n == 0 {
            StringMachine::fresh()
        } else {
            StringMachine::after(input, (n - 1) as nat).step(input, (n - 1) as usize).0
        }
    }

    /// The spans that the machine reports for the first `n` positions of
    /// `input`.
    pub open spec fn reports(input: Seq<u8>, n: nat) -> Seq<Span>
        decreases n,
    {
        if n == 0 {
            Seq::empty()
        } else {
            StringMachine::reports(input, (n - 1) as nat) + StringMachine::after(
                input,
                (n - 1) as nat,
            ).step(input, (n - 1) as usize).1.found()
        }
    }

    /// The position that the machine looks at next, once it stands
    /// before position `pos`: it skips the byte behind a backslash.
    pub open spec fn resumes_at(self, pos: int) -> int {
        match self.skip_until_pos {
            Some(skip) => if pos < skip {
                skip as int
            } else {
                pos
            },
            None => pos,
        }
    }

    /// The machine is inside of the string that `input` begins with, and
    /// has reported nothing.
    spec fn reading(input: Seq<u8>, n: nat) -> bool {
        let machine = StringMachine::after(input, n);
        &&& machine.state == State::Parsing(kind_of(input[0]))
        &&& machine.start_pos == 0
        &&& machine.inv(n as int)
        &&& ending(input, input[0], machine.resumes_at(n as int)) == ending(input, input[0], 1)
        &&& StringMachine::reports(input, n) == Seq::<Span>::empty()
    }
}

/// A closing quote stands behind the position from which it was looked
/// for, and within the input.
proof fn lemma_ending(input: Seq<u8>, quote: u8, pos: int)
    requires
        0 <= pos,
    ensures
        ending(input, quote, pos) matches Ending::Closed(at) ==> pos <= at < input.len()
            && input[at] == quote && (at == pos ==> input[pos] != BACKSLASH),
    decreases remaining(input, pos),
{
    if pos >= input.len() {
    } else if input[pos] == BACKSLASH {
        if !is_whitespace(byte_at(input, pos + 1)) && pos + 1 < input.len() {
            lemma_ending(input, quote, pos + 2);
        }
    } else if input[pos] == quote {
    } else if is_whitespace(input[pos]) {
    } else {
        lemma_ending(input, quote, pos + 1);
    }
}

/// Up to the closing quote the machine stays inside of the string.
proof fn lemma_reading(input: Seq<u8>, n: nat)
    requires
        1 <= n <= input.len() <= usize::MAX,
        is_quote(input[0]),
        ending(input, input[0], 1) matches Ending::Closed(at) ==> n <= at,
        ending(input, input[0], 1) != Ending::Broken,
    ensures
        StringMachine::reading(input, n),
    decreases n,
{
    reveal(StringMachine::step);
    let quote = input[0];
    if n == 1 {
        assert(StringMachine::after(input, 0) == StringMachine::fresh());
        assert(StringMachine::reports(input, 0) =~= Seq::<Span>::empty());
        assert(StringMachine::reports(input, 1) =~= Seq::<Span>::empty());
    } else {
        let before = (n - 1) as nat;
        lemma_reading(input, before);
        let machine = StringMachine::after(input, before);
        let at = machine.resumes_at(before as int);
        lemma_ending(input, quote, at);
        assert(StringMachine::reports(input, n) =~= Seq::<Span>::empty());
    }
}

/// A string that is properly terminated is reported, once and whole.
pub proof fn lemma_terminated_string_is_reported_once(input: Seq<u8>)
    requires
        is_terminated_string(input),
        input.len() <= usize::MAX,
    ensures
        StringMachine::reports(input, input.len()) == seq![
            Span { start: 0, end: (input.len() - 1) as usize },
        ],
{
    reveal(StringMachine::step);
    let last = (input.len() - 1) as nat;
    lemma_reading(input, last);
    let machine = StringMachine::after(input, last);
    lemma_ending(input, input[0], machine.resumes_at(last as int));
    assert(StringMachine::reports(input, input.len()) =~= seq![
        Span { start: 0, end: (input.len() - 1) as usize },
    ]);
}

/// A string that the input ends in the middle of is not reported.
pub proof fn lemma_unterminated_string_is_not_reported(input: Seq<u8>)
    requires
        is_unterminated_string(input),
        input.len() <= usize::MAX,
    ensures
        StringMachine::reports(input, input.len()) == Seq::<Span>::empty(),
{
    lemma_reading(input, input.len());
}

impl Ending {
    /// The ending with the position of the closing quote counted from
    /// `from`.
    pub open spec fn from(self, from: int) -> Ending {
        match self {
            Ending::Closed(at) => Ending::Closed(at - from),
            other => other,
        }
    }
}

/// How a string ends does not depend on what stands before it.
pub proof fn lemma_ending_of_rest(input: Seq<u8>, from: int, quote: u8, pos: int)
    requires
        0 <= from <= input.len(),
        0 <= pos,
    ensures
        ending(input.skip(from), quote, pos) == ending(input, quote, from + pos).from(from),
    decreases remaining(input, from + pos),
{
    let rest = input.skip(from);
    if pos < rest.len() {
        assert(rest[pos] == input[from + pos]);
        assert(byte_at(rest, pos + 1) == byte_at(input, from + pos + 1));
        if input[from + pos] == BACKSLASH {
            if !is_whitespace(byte_at(input, from + pos + 1)) && from + pos + 1 < input.len() {
                lemma_ending_of_rest(input, from, quote, pos + 2);
            }
        } else if input[from + pos] == quote {
        } else if is_whitespace(input[from + pos]) {
        } else {
            lemma_ending_of_rest(input, from, quote, pos + 1);
        }
    }
}

/// Where a string is closed does not depend on what stands behind the
/// closing quote.
pub proof fn lemma_ending_of_prefix(input: Seq<u8>, upto: int, quote: u8, pos: int)
    requires
        0 <= pos,
        0 <= upto <= input.len(),
        ending(input, quote, pos) matches Ending::Closed(at) && at < upto,
    ensures
        ending(input.take(upto), quote, pos) == ending(input, quote, pos),
    decreases remaining(input, pos),
{
    let prefix = input.take(upto);
    lemma_ending(input, quote, pos);
    assert(prefix[pos] == input[pos]);
    if input[pos] == BACKSLASH {
        lemma_ending(input, quote, pos + 2);
        assert(byte_at(prefix, pos + 1) == byte_at(input, pos + 1));
        lemma_ending_of_prefix(input, upto, quote, pos + 2);
    } else if input[pos] == quote {
    } else {
        lemma_ending_of_prefix(input, upto, quote, pos + 1);
    }
}

impl StringMachine {
    /// What the machine has read of a string has not ended it.
    pub open spec fn traced(self, input: Seq<u8>, pos: int) -> bool {
        &&& self.inv(pos)
        &&& self.state matches State::Parsing(kind) ==> {
            let start = self.start_pos as int;
            &&& start < input.len()
            &&& is_quote(input[start])
            &&& kind == kind_of(input[start])
            &&& ending(input, input[start], self.resumes_at(pos)) == ending(
                input,
                input[start],
                start + 1,
            )
        }
    }

    /// Feeding a position keeps the machine inside of the string, and a
    /// span that is reported goes from the opening to the closing quote.
    pub proof fn lemma_step_traced(self, input: Seq<u8>, pos: usize)
        requires
            self.traced(input, pos as int),
            pos <= input.len() <= usize::MAX,
        ensures
            self.step(input, pos).0.traced(input, pos + 1),
            self.step(input, pos).1 matches MachineState::Done(span) ==> {
                &&& self.state is Parsing
                &&& span.start == self.start_pos
                &&& span.start < span.end == pos < input.len()
                &&& is_quote(input[span.start as int])
                &&& ending(input, input[span.start as int], span.start + 1) == Ending::Closed(
                    pos as int,
                )
            },
    {
        reveal(StringMachine::step);
        self.lemma_step(input, pos);
    }

    /// However far the input was fed, what the machine has read of a
    /// string has not ended it.
    pub proof fn lemma_after_traced(input: Seq<u8>, n: nat)
        requires
            n <= input.len() <= usize::MAX,
        ensures
            StringMachine::after(input, n).traced(input, n as int),
        decreases n,
    {
        if n > 0 {
            StringMachine::lemma_after_traced(input, (n - 1) as nat);
            StringMachine::after(input, (n - 1) as nat).lemma_step_traced(
                input,
                (n - 1) as usize,
            );
        }
    }

    /// Every span that the machine reports is a properly terminated
    /// string.
    pub proof fn lemma_reports_strings(input: Seq<u8>, n: nat)
        requires
            n <= input.len() <= usize::MAX,
        ensures
            forall|j: int|
                0 <= j < StringMachine::reports(input, n).len() ==> {
                    let span = #[trigger] StringMachine::reports(input, n)[j];
                    span.fits(n) && is_terminated_string(span.of(input))
                },
        decreases n,
    {
        if n > 0 {
            let before = (n - 1) as nat;
            StringMachine::lemma_reports_strings(input, before);
            StringMachine::lemma_after_traced(input, before);
            StringMachine::after(input, before).lemma_step_traced(input, before as usize);
            let earlier = StringMachine::reports(input, before);
            let all = StringMachine::reports(input, n);
            assert forall|j: int| 0 <= j < all.len() implies {
                let span = #[trigger] all[j];
                span.fits(n) && is_terminated_string(span.of(input))
            } by {
                if j < earlier.len() {
                    assert(all[j] == earlier[j]);
                } else {
                    lemma_string_in_span(input, all[j]);
                }
            }
        }
    }
}

/// The bytes between an opening quote and the quote that closes it are a
/// properly terminated string.
pub proof fn lemma_string_in_span(input: Seq<u8>, span: Span)
    requires
        span.start < span.end < input.len(),
        is_quote(input[span.start as int]),
        ending(input, input[span.start as int], span.start + 1) == Ending::Closed(
            span.end as int,
        ),
    ensures
        is_terminated_string(span.of(input)),
{
    let start = span.start as int;
    let quote = input[start];
    let rest = input.skip(start);
    lemma_ending_of_rest(input, start, quote, 1);
    lemma_ending_of_prefix(rest, span.end + 1 - start, quote, 1);
    assert(rest.take(span.end + 1 - start) =~= span.of(input));
}

/// No whitespace stands in a string, from the position from which its
/// closing quote was looked for up to that quote.
pub proof fn lemma_no_whitespace_in_string(input: Seq<u8>, quote: u8, pos: int, at: int)
    requires
        0 <= pos <= at,
        is_quote(quote),
        ending(input, quote, pos) matches Ending::Closed(close) && at <= close,
    ensures
        !is_whitespace(input[at]),
    decreases remaining(input, pos),
{
    lemma_ending(input, quote, pos);
    if input[pos] == BACKSLASH {
        lemma_ending(input, quote, pos + 2);
        if at >= pos + 2 {
            lemma_no_whitespace_in_string(input, quote, pos + 2, at);
        }
    } else if input[pos] == quote {
    } else if at > pos {
        lemma_no_whitespace_in_string(input, quote, pos + 1, at);
    }
}

/// While the machine reads a string that is properly terminated, it
/// reports for every byte but the last that it is parsing.
pub proof fn lemma_terminated_string_is_parsed(input: Seq<u8>, k: nat)
    requires
        is_terminated_string(input),
        input.len() <= usize::MAX,
        k + 1 < input.len(),
    ensures
        StringMachine::after(input, k).step(input, k as usize).1 is Parsing,
{
    reveal(StringMachine::step);
    lemma_reading(input, k + 1);
    if k > 0 {
        lemma_reading(input, k);
    } else {
        assert(StringMachine::after(input, 0) == StringMachine::fresh());
    }
}

/// The input begins with a quote and holds no further quote.
pub open spec fn is_lone_quote(input: Seq<u8>) -> bool {
    &&& input.len() >= 1
    &&& is_quote(input[0])
    &&& forall|i: int| 1 <= i < input.len() ==> !is_quote(#[trigger] input[i])
}

/// A string that is never closed is not reported, whether the input ends
/// in it or a whitespace breaks it.
pub proof fn lemma_lone_quote_is_not_reported(input: Seq<u8>, n: nat)
    requires
        is_lone_quote(input),
        n <= input.len() <= usize::MAX,
    ensures
        StringMachine::reports(input, n) == Seq::<Span>::empty(),
        StringMachine::after(input, n).state is Parsing ==> StringMachine::after(
            input,
            n,
        ).state == State::Parsing(kind_of(input[0])),
    decreases n,
{
    reveal(StringMachine::step);
    if n == 0 {
        assert(StringMachine::reports(input, 0) =~= Seq::<Span>::empty());
    } else {
        lemma_lone_quote_is_not_reported(input, (n - 1) as nat);
        if n > 1 {
            assert(!is_quote(input[n - 1]));
        }
        assert(StringMachine::reports(input, n) =~= Seq::<Span>::empty());
    }
}

} // verus!
