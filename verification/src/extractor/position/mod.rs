//! What a machine does depends on the bytes around the position at which
//! it reads, and not on the position itself.
//!
//! Three relations say so for every machine. `moved` relates a machine
//! that reads a piece of the input to one that reads the piece alone.
//! `steady` holds of a machine that is put back into the state it was
//! constructed in by every whitespace before which no backslash stands.
//! `since` holds of a machine that has read nothing before a position.
//! `alone` follows the utility machine of a candidate machine, which reads
//! a utility on its own whatever the candidate machine is in the middle
//! of, and says what becomes of the bytes of a utility that stand alone.

use vstd::prelude::*;
use crate::cursor::byte_at;
use crate::extractor::bytes::{is_whitespace, BACKSLASH};
use crate::extractor::machine::{MachineState, Span};

pub mod alone;
pub mod arbitrary_property_machine;
pub mod arbitrary_value_machine;
pub mod arbitrary_variable_machine;
pub mod candidate_machine;
pub mod css_variable_machine;
pub mod modifier_machine;
pub mod named_utility_machine;
pub mod named_variant_machine;
pub mod string_machine;
pub mod utility_machine;
pub mod variant_machine;

verus! {

/// `part` is the piece of `input` that begins at position `by`.
pub open spec fn is_part(input: Seq<u8>, part: Seq<u8>, by: int) -> bool {
    &&& 0 <= by
    &&& by + part.len() <= input.len() <= usize::MAX
    &&& forall|j: int| 0 <= j < part.len() ==> #[trigger] part[j] == input[by + j]
}

/// The position `there` lies `by` positions behind the position `here`.
pub open spec fn moved(there: usize, here: usize, by: int) -> bool {
    there == here + by
}

/// `moved` for a position that need not be set.
pub open spec fn moved_if_set(there: Option<usize>, here: Option<usize>, by: int) -> bool {
    match (there, here) {
        (Some(there), Some(here)) => moved(there, here, by),
        (None, None) => true,
        _ => false,
    }
}

impl Span {
    /// This span lies `by` positions behind the span `here`.
    pub open spec fn moved(self, here: Span, by: int) -> bool {
        moved(self.start, here.start, by) && moved(self.end, here.end, by)
    }
}

impl MachineState {
    /// The same report for a machine that reads the same bytes `by`
    /// positions further on.
    pub open spec fn moved(self, here: MachineState, by: int) -> bool {
        match (self, here) {
            (MachineState::Idle, MachineState::Idle) => true,
            (MachineState::Parsing, MachineState::Parsing) => true,
            (MachineState::Done(there), MachineState::Done(here)) => there.moved(here, by),
            _ => false,
        }
    }
}

/// The byte at `pos` follows a backslash or is no whitespace: a machine
/// that reads a backslash and the byte behind it as one can pass over such
/// a byte.
pub open spec fn escaped_or_solid(input: Seq<u8>, pos: int) -> bool {
    byte_at(input, pos - 1) == BACKSLASH || !is_whitespace(byte_at(input, pos))
}

/// A whitespace stands at `pos`, and no backslash before it.
pub open spec fn is_bare_whitespace(input: Seq<u8>, pos: int) -> bool {
    is_whitespace(byte_at(input, pos)) && byte_at(input, pos - 1) != BACKSLASH
}

/// The position that is passed over up to `skip_until_pos` is one that
/// `escaped_or_solid` holds of.
pub open spec fn skips_fairly(skip_until_pos: Option<usize>, input: Seq<u8>, pos: int) -> bool {
    skip_until_pos matches Some(skip) ==> skip <= pos + 1 && (pos < skip ==> escaped_or_solid(
        input,
        pos,
    ))
}

} // verus!
