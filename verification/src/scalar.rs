//! Unicode scalar values and the replacement character.

use vstd::prelude::*;

verus! {

/// Unicode replacement character, U+FFFD.
pub const BADCHAR: char = '\u{FFFD}';

/// Whether `v` is a Unicode scalar value: a code point up to U+10FFFF that is
/// not a surrogate (U+D800 to U+DFFF).
pub open spec fn is_scalar_value(v: int) -> bool {
    0 <= v <= 0xD7FF || 0xE000 <= v <= 0x10FFFF
}

/// The character that stands for the number `v`: the character with that
/// scalar value where there is one, U+FFFD otherwise.
pub open spec fn scalar_or_replacement(v: int) -> char {
    if is_scalar_value(v) {
        v as char
    } else {
        BADCHAR
    }
}

/// `std::char::from_u32` returns the `char` whose scalar value is `i`, and
/// `None` exactly when `i` is a surrogate or lies above U+10FFFF.
pub assume_specification[ std::char::from_u32 ](i: u32) -> (r: Option<char>)
    ensures
        is_scalar_value(i as int) ==> r == Some(i as char),
        !is_scalar_value(i as int) ==> r is None,
;

/// Converts a number to the character it denotes, substituting U+FFFD for
/// surrogates and for values above U+10FFFF.
pub fn tochar(codepoint: u32) -> (c: char)
    ensures
        c == scalar_or_replacement(codepoint as int),
{
    match std::char::from_u32(codepoint) {
        Some(c) => c,
        None => BADCHAR,
    }
}

} // verus!
