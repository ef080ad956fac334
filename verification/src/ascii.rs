//! Names for the ASCII bytes the lexical grammar branches on.

use vstd::prelude::*;

verus! {

pub const NUL: u8 = 0x00;

pub const TAB: u8 = 0x09;

pub const LF: u8 = 0x0A;

pub const FF: u8 = 0x0C;

pub const SP: u8 = 0x20;

pub const EXCLAMATION: u8 = 0x21;

pub const QUOTE: u8 = 0x22;

pub const AMPERSAND: u8 = 0x26;

pub const APOSTROPHE: u8 = 0x27;

pub const HYPHEN: u8 = 0x2D;

pub const SLASH: u8 = 0x2F;

pub const LESS_THAN: u8 = 0x3C;

pub const EQUALS: u8 = 0x3D;

pub const GREATER_THAN: u8 = 0x3E;

pub const QUESTION: u8 = 0x3F;

pub const DIGIT_0: u8 = 0x30;

pub const DIGIT_9: u8 = 0x39;

pub const UPPER_A: u8 = 0x41;

pub const UPPER_D: u8 = 0x44;

pub const UPPER_Z: u8 = 0x5A;

pub const LOWER_A: u8 = 0x61;

pub const LOWER_D: u8 = 0x64;

pub const LOWER_Z: u8 = 0x7A;

/// An ASCII digit.
pub open spec fn is_ascii_digit(b: u8) -> bool {
    DIGIT_0 <= b && b <= DIGIT_9
}

/// Runtime test for `is_ascii_digit`.
pub fn digit(b: u8) -> (r: bool)
    ensures
        r == is_ascii_digit(b),
{
    DIGIT_0 <= b && b <= DIGIT_9
}

/// An ASCII letter, either case.
pub open spec fn is_ascii_letter(b: u8) -> bool {
    (UPPER_A <= b && b <= UPPER_Z) || (LOWER_A <= b && b <= LOWER_Z)
}

/// Runtime test for `is_ascii_letter`.
pub fn letter(b: u8) -> (r: bool)
    ensures
        r == is_ascii_letter(b),
{
    (UPPER_A <= b && b <= UPPER_Z) || (LOWER_A <= b && b <= LOWER_Z)
}

/// The exact whitespace set the lexical grammar treats as significant:
/// tab, line feed, form feed and space.
pub open spec fn is_lexical_whitespace(b: u8) -> bool {
    b == TAB || b == LF || b == FF || b == SP
}

/// Runtime test for `is_lexical_whitespace`.
pub fn lexical_whitespace(b: u8) -> (r: bool)
    ensures
        r == is_lexical_whitespace(b),
{
    b == TAB || b == LF || b == FF || b == SP
}

} // verus!
