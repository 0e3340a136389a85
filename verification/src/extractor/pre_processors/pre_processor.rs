//! What every pre-processor has to keep to.

use vstd::prelude::*;
use crate::extractor::bytes::SPACE;

verus! {

/// `after` is `before` with some bytes replaced by spaces.
pub open spec fn only_blanked(before: Seq<u8>, after: Seq<u8>) -> bool {
    &&& after.len() == before.len()
    &&& forall|i: int| 0 <= i < before.len() ==> after[i] == before[i] || after[i] == SPACE
}

/// A rewrite of a buffer that is applied before extraction. It keeps the
/// offsets of all bytes: the only change that it may make is to put a space
/// in the place of a byte.
pub trait PreProcessor {
    fn process(&self, content: &[u8]) -> (result: Vec<u8>)
        ensures
            only_blanked(content@, result@),
    ;
}

} // verus!
