//! Predicates over single characters that the reader composes.
use vstd::prelude::*;

verus! {

/// The four whitespace characters allowed between tokens.
pub open spec fn spec_is_whitespace(c: char) -> bool {
    c == ' ' || c == '\n' || c == '\r' || c == '\t'
}

/// The letters that start the exponent of a number.
pub open spec fn spec_is_exponent(c: char) -> bool {
    c == 'e' || c == 'E'
}

/// A decimal digit.
pub open spec fn spec_is_digit(c: char) -> bool {
    '0' <= c && c <= '9'
}

/// A hexadecimal digit, in either case.
pub open spec fn spec_is_hex(c: char) -> bool {
    spec_is_digit(c) || ('A' <= c && c <= 'F') || ('a' <= c && c <= 'f')
}

/// A C0 control character: every code point below the space.
pub open spec fn spec_is_control(c: char) -> bool {
    (c as u32) < 0x20
}

/// The value of a hexadecimal digit.
pub open spec fn hex_value(c: char) -> u32 {
    if spec_is_digit(c) {
        (c as u32 - '0' as u32) as u32
    } else if 'A' <= c && c <= 'F' {
        (c as u32 - 'A' as u32 + 10) as u32
    } else {
        (c as u32 - 'a' as u32 + 10) as u32
    }
}

pub fn cargo_is_whitespace(c: char) -> (r: bool)
    ensures
        r == spec_is_whitespace(c),
{
    c == ' ' || c == '\n' || c == '\r' || c == '\t'
}

pub fn cargo_is_exponent(c: char) -> (r: bool)
    ensures
        r == spec_is_exponent(c),
{
    c == 'e' || c == 'E'
}

pub fn cargo_is_digit(c: char) -> (r: bool)
    ensures
        r == spec_is_digit(c),
{
    '0' <= c && c <= '9'
}

pub fn cargo_is_hex(c: char) -> (r: bool)
    ensures
        r == spec_is_hex(c),
{
    cargo_is_digit(c) || ('A' <= c && c <= 'F') || ('a' <= c && c <= 'f')
}

pub fn cargo_is_control(c: char) -> (r: bool)
    ensures
        r == spec_is_control(c),
{
    (c as u32) < 0x20
}

/// The value of a hexadecimal digit.
pub fn hex_digit_value(c: char) -> (r: u32)
    requires
        spec_is_hex(c),
    ensures
        r == hex_value(c),
        r < 16,
{
    if cargo_is_digit(c) {
        c as u32 - '0' as u32
    } else if 'A' <= c && c <= 'F' {
        c as u32 - 'A' as u32 + 10
    } else {
        c as u32 - 'a' as u32 + 10
    }
}

} // verus!
