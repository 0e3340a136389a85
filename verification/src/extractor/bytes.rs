//! Names for the ASCII bytes that the machines look at, and classes of them.

use vstd::prelude::*;

verus! {

/// The byte that a cursor shows outside of its buffer.
pub const NUL: u8 = 0x00;
/// A horizontal tab.
pub const TAB: u8 = 0x09;
/// A line feed.
pub const LINE_FEED: u8 = 0x0A;
/// A form feed.
pub const FORM_FEED: u8 = 0x0C;
/// A carriage return.
pub const CARRIAGE_RETURN: u8 = 0x0D;
/// A space.
pub const SPACE: u8 = 0x20;
/// `!`
pub const BANG: u8 = 0x21;
/// `"`
pub const DOUBLE_QUOTE: u8 = 0x22;
/// `#`
pub const HASH: u8 = 0x23;
/// `%`
pub const PERCENT: u8 = 0x25;
/// `'`
pub const SINGLE_QUOTE: u8 = 0x27;
/// `(`
pub const OPEN_PAREN: u8 = 0x28;
/// `)`
pub const CLOSE_PAREN: u8 = 0x29;
/// `*`
pub const STAR: u8 = 0x2A;
/// `,`
pub const COMMA: u8 = 0x2C;
/// `-`
pub const DASH: u8 = 0x2D;
/// `.`
pub const DOT: u8 = 0x2E;
/// `/`
pub const SLASH: u8 = 0x2F;
/// `0`
pub const DIGIT_0: u8 = 0x30;
/// `9`
pub const DIGIT_9: u8 = 0x39;
/// `:`
pub const COLON: u8 = 0x3A;
/// `<`
pub const LESS_THAN: u8 = 0x3C;
/// `=`
pub const EQUALS: u8 = 0x3D;
/// `@`
pub const AT: u8 = 0x40;
/// `A`
pub const UPPER_A: u8 = 0x41;
/// `W`
pub const UPPER_W: u8 = 0x57;
/// `Z`
pub const UPPER_Z: u8 = 0x5A;
/// `[`
pub const OPEN_BRACKET: u8 = 0x5B;
/// `\`
pub const BACKSLASH: u8 = 0x5C;
/// `]`
pub const CLOSE_BRACKET: u8 = 0x5D;
/// `_`
pub const UNDERSCORE: u8 = 0x5F;
/// `` ` ``
pub const BACKTICK: u8 = 0x60;
/// `a`
pub const LOWER_A: u8 = 0x61;
/// `w`
pub const LOWER_W: u8 = 0x77;
/// `z`
pub const LOWER_Z: u8 = 0x7A;
/// `{`
pub const OPEN_CURLY: u8 = 0x7B;
/// `}`
pub const CLOSE_CURLY: u8 = 0x7D;

/// What `is_whitespace` computes.
pub open spec fn spec_is_whitespace(byte: u8) -> bool {
    byte == SPACE || byte == TAB || byte == LINE_FEED || byte == CARRIAGE_RETURN || byte
        == FORM_FEED
}

/// ASCII whitespace: space, tab, line feed, carriage return and form feed.
#[verifier::when_used_as_spec(spec_is_whitespace)]
pub fn is_whitespace(byte: u8) -> (yes: bool)
    ensures
        yes == spec_is_whitespace(byte),
{
    byte == SPACE || byte == TAB || byte == LINE_FEED || byte == CARRIAGE_RETURN || byte
        == FORM_FEED
}

/// What `is_quote` computes.
pub open spec fn spec_is_quote(byte: u8) -> bool {
    byte == DOUBLE_QUOTE || byte == SINGLE_QUOTE || byte == BACKTICK
}

/// One of the three quote characters that delimit a string.
#[verifier::when_used_as_spec(spec_is_quote)]
pub fn is_quote(byte: u8) -> (yes: bool)
    ensures
        yes == spec_is_quote(byte),
{
    byte == DOUBLE_QUOTE || byte == SINGLE_QUOTE || byte == BACKTICK
}

/// What `is_lower` computes.
pub open spec fn spec_is_lower(byte: u8) -> bool {
    LOWER_A <= byte <= LOWER_Z
}

/// A lowercase ASCII letter.
#[verifier::when_used_as_spec(spec_is_lower)]
pub fn is_lower(byte: u8) -> (yes: bool)
    ensures
        yes == spec_is_lower(byte),
{
    LOWER_A <= byte && byte <= LOWER_Z
}

/// What `is_alpha` computes.
pub open spec fn spec_is_alpha(byte: u8) -> bool {
    LOWER_A <= byte <= LOWER_Z || UPPER_A <= byte <= UPPER_Z
}

/// An ASCII letter.
#[verifier::when_used_as_spec(spec_is_alpha)]
pub fn is_alpha(byte: u8) -> (yes: bool)
    ensures
        yes == spec_is_alpha(byte),
{
    (LOWER_A <= byte && byte <= LOWER_Z) || (UPPER_A <= byte && byte <= UPPER_Z)
}

/// What `is_digit` computes.
pub open spec fn spec_is_digit(byte: u8) -> bool {
    DIGIT_0 <= byte <= DIGIT_9
}

/// An ASCII digit.
#[verifier::when_used_as_spec(spec_is_digit)]
pub fn is_digit(byte: u8) -> (yes: bool)
    ensures
        yes == spec_is_digit(byte),
{
    DIGIT_0 <= byte && byte <= DIGIT_9
}

/// What `is_alnum` computes.
pub open spec fn spec_is_alnum(byte: u8) -> bool {
    spec_is_alpha(byte) || spec_is_digit(byte)
}

/// An ASCII letter or digit.
#[verifier::when_used_as_spec(spec_is_alnum)]
pub fn is_alnum(byte: u8) -> (yes: bool)
    ensures
        yes == spec_is_alnum(byte),
{
    is_alpha(byte) || is_digit(byte)
}

/// What `is_open_bracket` computes.
pub open spec fn spec_is_open_bracket(byte: u8) -> bool {
    byte == OPEN_PAREN || byte == OPEN_BRACKET || byte == OPEN_CURLY
}

/// One of `(`, `[` and `{`.
#[verifier::when_used_as_spec(spec_is_open_bracket)]
pub fn is_open_bracket(byte: u8) -> (yes: bool)
    ensures
        yes == spec_is_open_bracket(byte),
{
    byte == OPEN_PAREN || byte == OPEN_BRACKET || byte == OPEN_CURLY
}

/// What `is_close_bracket` computes.
pub open spec fn spec_is_close_bracket(byte: u8) -> bool {
    byte == CLOSE_PAREN || byte == CLOSE_BRACKET || byte == CLOSE_CURLY
}

/// One of `)`, `]` and `}`.
#[verifier::when_used_as_spec(spec_is_close_bracket)]
pub fn is_close_bracket(byte: u8) -> (yes: bool)
    ensures
        yes == spec_is_close_bracket(byte),
{
    byte == CLOSE_PAREN || byte == CLOSE_BRACKET || byte == CLOSE_CURLY
}

/// What `closer_of` computes.
pub open spec fn spec_closer_of(byte: u8) -> u8 {
    if byte == OPEN_PAREN {
        CLOSE_PAREN
    } else if byte == OPEN_BRACKET {
        CLOSE_BRACKET
    } else {
        CLOSE_CURLY
    }
}

/// The bracket that closes the opening bracket `byte`.
#[verifier::when_used_as_spec(spec_closer_of)]
pub fn closer_of(byte: u8) -> (closer: u8)
    requires
        is_open_bracket(byte),
    ensures
        closer == spec_closer_of(byte),
{
    if byte == OPEN_PAREN {
        CLOSE_PAREN
    } else if byte == OPEN_BRACKET {
        CLOSE_BRACKET
    } else {
        CLOSE_CURLY
    }
}

} // verus!
