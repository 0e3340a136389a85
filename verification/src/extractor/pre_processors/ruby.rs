//! Word arrays of Ruby: `%w[...]`, `%w(...)` and `%w{...}`.
//!
//! The delimiters of such a literal are replaced by spaces, so that the
//! extractor sees its words as a list that is separated by spaces.

use vstd::prelude::*;
use vstd::slice::slice_to_vec;
use crate::cursor::{byte_at, remaining, Cursor};
use crate::extractor::bracket_stack::BracketStack;
use crate::extractor::bytes::{
    closer_of, is_close_bracket, is_open_bracket, BACKSLASH, LOWER_W, PERCENT, SPACE, UPPER_W,
};
use crate::extractor::pre_processors::pre_processor::{only_blanked, PreProcessor};

verus! {

/// A word array starts at `pos`: a `%` followed by `w` or `W`.
pub open spec fn marker_at(content: Seq<u8>, pos: int) -> bool {
    byte_at(content, pos) == PERCENT && (byte_at(content, pos + 1) == LOWER_W || byte_at(
        content,
        pos + 1,
    ) == UPPER_W)
}

/// `result` after the bytes of `content` from `pos` on were read outside of
/// a word array.
pub open spec fn rewrite_outside(content: Seq<u8>, pos: int, result: Seq<u8>) -> Seq<u8>
    decreases remaining(content, pos), 0nat,
{
    if pos < 0 || pos >= content.len() {
        result
    } else if !marker_at(content, pos) {
        rewrite_outside(content, pos + 1, result)
    } else if is_open_bracket(byte_at(content, pos + 2)) {
        rewrite_inside(
            content,
            pos + 3,
            closer_of(content[pos + 2]),
            Seq::empty(),
            result.update(pos + 2, SPACE),
        )
    } else {
        rewrite_outside(content, pos + 3, result)
    }
}

/// `result` after the bytes of `content` from `pos` on were read, where
/// `pos` lies inside of a word array that `boundary` closes and `stack`
/// holds the brackets that were opened in it.
pub open spec fn rewrite_inside(
    content: Seq<u8>,
    pos: int,
    boundary: u8,
    stack: Seq<u8>,
    result: Seq<u8>,
) -> Seq<u8>
    decreases remaining(content, pos), 1nat,
{
    if pos < 0 || pos >= content.len() {
        result
    } else {
        let curr = content[pos];
        if curr == BACKSLASH {
            // An escaped byte is skipped. An escaped space separates no
            // words; its backslash becomes a space to keep the offsets.
            if byte_at(content, pos + 1) == SPACE {
                rewrite_inside(content, pos + 2, boundary, stack, result.update(pos, SPACE))
            } else {
                rewrite_inside(content, pos + 2, boundary, stack, result)
            }
        } else if is_open_bracket(curr) {
            rewrite_inside(content, pos + 1, boundary, stack.push(closer_of(curr)), result)
        } else if is_close_bracket(curr) && stack.len() > 0 {
            if stack.last() == curr {
                rewrite_inside(content, pos + 1, boundary, stack.drop_last(), result)
            } else {
                // Unbalanced: the byte behind the bracket is skipped too.
                rewrite_inside(content, pos + 2, boundary, stack.drop_last(), result)
            }
        } else if curr == boundary {
            rewrite_outside(content, pos + 1, result.update(pos, SPACE))
        } else {
            rewrite_inside(content, pos + 1, boundary, stack, result)
        }
    }
}

/// `content` with the delimiters of its word arrays, and the backslashes
/// before escaped spaces in them, replaced by spaces.
pub open spec fn rewritten(content: Seq<u8>) -> Seq<u8> {
    rewrite_outside(content, 0, content)
}

/// Behind the last byte nothing is left to rewrite.
pub proof fn lemma_rewrite_past_end(
    content: Seq<u8>,
    pos: int,
    boundary: u8,
    stack: Seq<u8>,
    result: Seq<u8>,
)
    requires
        pos >= content.len(),
    ensures
        rewrite_outside(content, pos, result) == result,
        rewrite_inside(content, pos, boundary, stack, result) == result,
{
}

/// Reading on outside of a word array only puts spaces in.
pub proof fn lemma_rewrite_outside(content: Seq<u8>, pos: int, result: Seq<u8>)
    requires
        only_blanked(content, result),
    ensures
        only_blanked(content, rewrite_outside(content, pos, result)),
    decreases remaining(content, pos), 0nat,
{
    if pos < 0 || pos >= content.len() {
    } else if !marker_at(content, pos) {
        lemma_rewrite_outside(content, pos + 1, result);
    } else if is_open_bracket(byte_at(content, pos + 2)) {
        lemma_rewrite_inside(
            content,
            pos + 3,
            closer_of(content[pos + 2]),
            Seq::empty(),
            result.update(pos + 2, SPACE),
        );
    } else {
        lemma_rewrite_outside(content, pos + 3, result);
    }
}

/// Reading on inside of a word array only puts spaces in.
pub proof fn lemma_rewrite_inside(
    content: Seq<u8>,
    pos: int,
    boundary: u8,
    stack: Seq<u8>,
    result: Seq<u8>,
)
    requires
        only_blanked(content, result),
    ensures
        only_blanked(content, rewrite_inside(content, pos, boundary, stack, result)),
    decreases remaining(content, pos), 1nat,
{
    if pos < 0 || pos >= content.len() {
    } else {
        let curr = content[pos];
        if curr == BACKSLASH {
            if byte_at(content, pos + 1) == SPACE {
                lemma_rewrite_inside(
                    content,
                    pos + 2,
                    boundary,
                    stack,
                    result.update(pos, SPACE),
                );
            } else {
                lemma_rewrite_inside(content, pos + 2, boundary, stack, result);
            }
        } else if is_open_bracket(curr) {
            lemma_rewrite_inside(content, pos + 1, boundary, stack.push(closer_of(curr)), result);
        } else if is_close_bracket(curr) && stack.len() > 0 {
            if stack.last() == curr {
                lemma_rewrite_inside(content, pos + 1, boundary, stack.drop_last(), result);
            } else {
                lemma_rewrite_inside(content, pos + 2, boundary, stack.drop_last(), result);
            }
        } else if curr == boundary {
            lemma_rewrite_outside(content, pos + 1, result.update(pos, SPACE));
        } else {
            lemma_rewrite_inside(content, pos + 1, boundary, stack, result);
        }
    }
}

/// Reading `content` from `pos` on, outside of a word array, one comes
/// upon the start of a word array.
pub open spec fn meets_word_array(content: Seq<u8>, pos: int) -> bool
    decreases remaining(content, pos),
{
    if pos < 0 || pos >= content.len() {
        false
    } else if !marker_at(content, pos) {
        meets_word_array(content, pos + 1)
    } else if is_open_bracket(byte_at(content, pos + 2)) {
        true
    } else {
        meets_word_array(content, pos + 3)
    }
}

/// A space that was put in stays, whatever is read behind it.
proof fn lemma_space_stays_outside(content: Seq<u8>, pos: int, result: Seq<u8>, at: int)
    requires
        result.len() == content.len(),
        0 <= at < result.len(),
        result[at] == SPACE,
    ensures
        rewrite_outside(content, pos, result)[at] == SPACE,
    decreases remaining(content, pos), 0nat,
{
    if pos < 0 || pos >= content.len() {
    } else if !marker_at(content, pos) {
        lemma_space_stays_outside(content, pos + 1, result, at);
    } else if is_open_bracket(byte_at(content, pos + 2)) {
        lemma_space_stays_inside(
            content,
            pos + 3,
            closer_of(content[pos + 2]),
            Seq::empty(),
            result.update(pos + 2, SPACE),
            at,
        );
    } else {
        lemma_space_stays_outside(content, pos + 3, result, at);
    }
}

proof fn lemma_space_stays_inside(
    content: Seq<u8>,
    pos: int,
    boundary: u8,
    stack: Seq<u8>,
    result: Seq<u8>,
    at: int,
)
    requires
        result.len() == content.len(),
        0 <= at < result.len(),
        result[at] == SPACE,
    ensures
        rewrite_inside(content, pos, boundary, stack, result)[at] == SPACE,
    decreases remaining(content, pos), 1nat,
{
    if pos < 0 || pos >= content.len() {
    } else {
        let curr = content[pos];
        if curr == BACKSLASH {
            if byte_at(content, pos + 1) == SPACE {
                lemma_space_stays_inside(
                    content,
                    pos + 2,
                    boundary,
                    stack,
                    result.update(pos, SPACE),
                    at,
                );
            } else {
                lemma_space_stays_inside(content, pos + 2, boundary, stack, result, at);
            }
        } else if is_open_bracket(curr) {
            lemma_space_stays_inside(
                content,
                pos + 1,
                boundary,
                stack.push(closer_of(curr)),
                result,
                at,
            );
        } else if is_close_bracket(curr) && stack.len() > 0 {
            if stack.last() == curr {
                lemma_space_stays_inside(
                    content,
                    pos + 1,
                    boundary,
                    stack.drop_last(),
                    result,
                    at,
                );
            } else {
                lemma_space_stays_inside(
                    content,
                    pos + 2,
                    boundary,
                    stack.drop_last(),
                    result,
                    at,
                );
            }
        } else if curr == boundary {
            lemma_space_stays_outside(content, pos + 1, result.update(pos, SPACE), at);
        } else {
            lemma_space_stays_inside(content, pos + 1, boundary, stack, result, at);
        }
    }
}

/// Where no word array is met, nothing is rewritten; where one is met, its
/// opening bracket becomes a space.
proof fn lemma_rewrite_when_met(content: Seq<u8>, pos: int, result: Seq<u8>)
    requires
        result.len() == content.len(),
    ensures
        !meets_word_array(content, pos) ==> rewrite_outside(content, pos, result) == result,
        meets_word_array(content, pos) ==> exists|at: int|
            0 <= at < content.len() && is_open_bracket(#[trigger] content[at])
                && rewrite_outside(content, pos, result)[at] == SPACE,
    decreases remaining(content, pos),
{
    if pos < 0 || pos >= content.len() {
    } else if !marker_at(content, pos) {
        lemma_rewrite_when_met(content, pos + 1, result);
    } else if is_open_bracket(byte_at(content, pos + 2)) {
        lemma_space_stays_inside(
            content,
            pos + 3,
            closer_of(content[pos + 2]),
            Seq::empty(),
            result.update(pos + 2, SPACE),
            pos + 2,
        );
        assert(is_open_bracket(content[pos + 2]));
    } else {
        lemma_rewrite_when_met(content, pos + 3, result);
    }
}

/// A text is left as it is exactly when no word array is met in it.
pub proof fn lemma_unchanged_without_word_array(content: Seq<u8>)
    ensures
        rewritten(content) == content <==> !meets_word_array(content, 0),
{
    lemma_rewrite_when_met(content, 0, content);
    if meets_word_array(content, 0) {
        let at = choose|at: int|
            0 <= at < content.len() && is_open_bracket(#[trigger] content[at])
                && rewrite_outside(content, 0, content)[at] == SPACE;
        assert(content[at] != SPACE);
    }
}

/// Rewriting a second time changes nothing, unless the first time has
/// left the start of a word array where the second one meets it, as in
/// `%w[%w[a]]`.
pub proof fn lemma_rewriting_twice(content: Seq<u8>)
    requires
        !meets_word_array(rewritten(content), 0),
    ensures
        rewritten(rewritten(content)) == rewritten(content),
{
    lemma_unchanged_without_word_array(rewritten(content));
}

/// The pre-processor for Ruby.
#[derive(Debug, Default)]
pub struct Ruby;

impl PreProcessor for Ruby {
    fn process(&self, content: &[u8]) -> (result: Vec<u8>)
        ensures
            result@ == rewritten(content@),
    {
        let len = content.len();
        let mut result = slice_to_vec(content);
        let mut cursor = Cursor::new(content);
        let mut bracket_stack = BracketStack::default();

        proof {
            lemma_rewrite_outside(content@, 0, content@);
        }
        while cursor.pos < len
            invariant
                cursor.wf(),
                cursor.input == content,
                len == content@.len(),
                result@.len() == len,
                rewritten(content@) == rewrite_outside(content@, cursor.pos as int, result@),
            decreases len - cursor.pos,
        {
            let ghost start = cursor.pos;
            // Looking for `%w` or `%W`.
            if !(cursor.curr == PERCENT && (cursor.next == LOWER_W || cursor.next == UPPER_W)) {
                cursor.advance();
                continue ;
            }
            assert(marker_at(content@, start as int));
            cursor.advance_twice();

            // The bracket that closes the literal.
            if !is_open_bracket(cursor.curr) {
                cursor.advance();
                proof {
                    if start + 3 > len {
                        lemma_rewrite_past_end(content@, start + 3, 0, Seq::empty(), result@);
                        lemma_rewrite_past_end(content@, len as int, 0, Seq::empty(), result@);
                    }
                }
                continue ;
            }
            let boundary = closer_of(cursor.curr);

            bracket_stack.reset();

            // Replace the opening bracket with a space, and step over it.
            result[cursor.pos] = SPACE;
            cursor.advance();
            proof {
                if start + 3 > len {
                    lemma_rewrite_past_end(content@, start + 3, boundary, Seq::empty(), result@);
                    lemma_rewrite_past_end(content@, len as int, boundary, Seq::empty(), result@);
                }
            }

            while cursor.pos < len
                invariant_except_break
                    rewritten(content@) == rewrite_inside(
                        content@,
                        cursor.pos as int,
                        boundary,
                        bracket_stack@,
                        result@,
                    ),
                invariant
                    cursor.wf(),
                    cursor.input == content,
                    len == content@.len(),
                    result@.len() == len,
                    cursor.pos > start,
                    is_close_bracket(boundary),
                ensures
                    rewritten(content@) == rewrite_outside(content@, cursor.pos as int, result@),
                decreases len - cursor.pos,
            {
                let curr = cursor.curr;
                let ghost here = cursor.pos;
                proof {
                    if here + 2 > len {
                        lemma_rewrite_past_end(
                            content@,
                            here + 2,
                            boundary,
                            bracket_stack@,
                            result@,
                        );
                        lemma_rewrite_past_end(
                            content@,
                            here + 2,
                            boundary,
                            bracket_stack@.drop_last(),
                            result@,
                        );
                        lemma_rewrite_past_end(
                            content@,
                            here + 2,
                            boundary,
                            bracket_stack@,
                            result@.update(here as int, SPACE),
                        );
                    }
                }
                if curr == BACKSLASH {
                    // Use backslash to embed spaces in the words.
                    if cursor.next == SPACE {
                        result[cursor.pos] = SPACE;
                    }
                    cursor.advance();
                } else if is_open_bracket(curr) {
                    bracket_stack.push(curr);
                } else if is_close_bracket(curr) && !bracket_stack.is_empty() {
                    if !bracket_stack.pop(curr) {
                        // Unbalanced.
                        cursor.advance();
                    }
                } else if curr == boundary {
                    // The end of the literal.
                    result[cursor.pos] = SPACE;
                    assert(!marker_at(content@, cursor.pos as int));
                    break ;
                }
                cursor.advance();
            }
        }

        result
    }
}

} // verus!
