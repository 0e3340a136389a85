//! Read cursor over a byte buffer: a position and the bytes around it.

use vstd::prelude::*;

verus! {

/// The byte of `input` at index `i`, or the sentinel `0x00` when `i` lies
/// outside of the buffer.
pub open spec fn byte_at(input: Seq<u8>, i: int) -> u8 {
    if 0 <= i < input.len() {
        input[i]
    } else {
        0u8
    }
}

/// The number of bytes of `input` from `pos` on.
pub open spec fn remaining(input: Seq<u8>, pos: int) -> nat {
    if 0 <= pos <= input.len() {
        (input.len() - pos) as nat
    } else {
        0
    }
}

/// A buffer is never longer than the largest position.
pub proof fn lemma_len_in_range(input: &[u8])
    ensures
        input@.len() <= usize::MAX,
{
    broadcast use vstd::slice::axiom_spec_len;

    assert(vstd::slice::spec_slice_len(input) == input@.len());
}

/// A position in a byte buffer together with the previous, current and next
/// byte. Reading past either end yields `0x00`.
#[derive(Debug, Clone, Copy)]
pub struct Cursor<'a> {
    /// The buffer that is being read.
    pub input: &'a [u8],
    /// The current position, at most the length of the buffer.
    pub pos: usize,
    /// Whether the cursor stands on the first position.
    pub at_start: bool,
    /// Whether the current byte is the last real byte (or lies past it).
    pub at_end: bool,
    /// The byte before the current position.
    pub prev: u8,
    /// The byte at the current position.
    pub curr: u8,
    /// The byte after the current position.
    pub next: u8,
}

impl<'a> Cursor<'a> {
    /// The cursor over `input` that stands at `pos` (or at the end of the
    /// buffer if `pos` lies beyond it).
    pub open spec fn at(input: &'a [u8], pos: int) -> Cursor<'a> {
        let p = if pos <= input@.len() {
            pos
        } else {
            input@.len() as int
        };
        Cursor {
            input,
            pos: p as usize,
            at_start: p == 0,
            at_end: p + 1 >= input@.len(),
            prev: byte_at(input@, p - 1),
            curr: byte_at(input@, p),
            next: byte_at(input@, p + 1),
        }
    }

    /// The cached bytes and flags agree with the buffer and the position.
    pub open spec fn wf(&self) -> bool {
        &&& self.pos <= self.input@.len() <= usize::MAX
        &&& *self == Cursor::at(self.input, self.pos as int)
    }

    /// A cursor at the start of `input`.
    pub fn new(input: &'a [u8]) -> (cursor: Self)
        ensures
            cursor == Cursor::at(input, 0),
            cursor.wf(),
    {
        let mut cursor = Cursor {
            input,
            pos: 0,
            at_start: true,
            at_end: false,
            prev: 0x00,
            curr: 0x00,
            next: 0x00,
        };
        cursor.move_to(0);
        cursor
    }

    /// Moves the cursor to `pos`, clamped to the length of the buffer, and
    /// reads the three bytes around it anew.
    pub fn move_to(&mut self, pos: usize)
        ensures
            *final(self) == Cursor::at(old(self).input, pos as int),
            final(self).wf(),
    {
        proof {
            lemma_len_in_range(self.input);
        }
        let len = self.input.len();
        let pos = if pos <= len {
            pos
        } else {
            len
        };
        self.pos = pos;
        self.at_start = pos == 0;
        self.at_end = len - pos <= 1;
        self.prev = if pos > 0 {
            self.input[pos - 1]
        } else {
            0x00
        };
        self.curr = if pos < len {
            self.input[pos]
        } else {
            0x00
        };
        self.next = if len - pos > 1 {
            self.input[pos + 1]
        } else {
            0x00
        };
    }

    /// Moves one position ahead, stopping at the end of the buffer.
    pub fn advance(&mut self)
        requires
            old(self).wf(),
        ensures
            *final(self) == Cursor::at(old(self).input, old(self).pos + 1),
            final(self).wf(),
    {
        if self.pos < self.input.len() {
            let pos = self.pos + 1;
            self.move_to(pos);
        }
    }

    /// Moves two positions ahead, stopping at the end of the buffer.
    pub fn advance_twice(&mut self)
        requires
            old(self).wf(),
        ensures
            *final(self) == Cursor::at(old(self).input, old(self).pos + 2),
            final(self).wf(),
    {
        proof {
            lemma_len_in_range(self.input);
        }
        self.advance();
        self.advance();
    }
}

/// The cursor that was put at `pos` and then moved ahead `k` times, one
/// position at a time.
pub open spec fn stepped(input: &[u8], pos: int, k: nat) -> Cursor<'_>
    decreases k,
{
    if k == 0 {
        Cursor::at(input, pos)
    } else {
        Cursor::at(input, stepped(input, pos, (k - 1) as nat).pos + 1)
    }
}

/// However a cursor reached a position, it shows the same bytes there:
/// moving ahead `k` times one position at a time and jumping `k` positions
/// at once give the same cursor. What a machine does at a position depends
/// on the cursor only, so both ways of feeding give the same reports.
pub proof fn lemma_steps_equal_jump(input: &[u8], pos: int, k: nat)
    requires
        0 <= pos,
    ensures
        stepped(input, pos, k) == Cursor::at(input, pos + k),
    decreases k,
{
    lemma_len_in_range(input);
    if k > 0 {
        lemma_steps_equal_jump(input, pos, (k - 1) as nat);
    }
}

} // verus!
