//! The few classes of ASCII bytes that the notation is made of.

use vstd::prelude::*;

verus! {

/// `#`
pub const HASH: u8 = 0x23;

/// `*`
pub const STAR: u8 = 0x2a;

/// `+`
pub const PLUS: u8 = 0x2b;

/// `-`
pub const MINUS: u8 = 0x2d;

/// `.`
pub const DOT: u8 = 0x2e;

/// `;`
pub const SEMICOLON: u8 = 0x3b;

/// `<`
pub const LESS: u8 = 0x3c;

/// `>`
pub const GREATER: u8 = 0x3e;

/// The blank.
pub const SPACE: u8 = 0x20;

/// Whether `byte` is one of `0` to `9`.
pub open spec fn spec_is_digit(byte: u8) -> bool {
    0x30 <= byte <= 0x39
}

/// Whether `byte` is one of `0` to `9`.
#[verifier::when_used_as_spec(spec_is_digit)]
pub fn is_digit(byte: u8) -> (digit: bool)
    ensures
        digit == spec_is_digit(byte),
{
    0x30 <= byte && byte <= 0x39
}

/// The number that the digit `byte` stands for.
pub open spec fn spec_digit_value(byte: u8) -> nat
    recommends
        spec_is_digit(byte),
{
    (byte - 0x30) as nat
}

/// The number that the digit `byte` stands for.
pub fn digit_value(byte: u8) -> (value: u8)
    requires
        spec_is_digit(byte),
    ensures
        value == spec_digit_value(byte),
        value <= 9,
{
    byte - 0x30
}

/// The digit that stands for `value`.
pub open spec fn spec_digit(value: nat) -> u8
    recommends
        value <= 9,
{
    (0x30 + value) as u8
}

/// The digit that stands for `value`.
pub fn digit(value: u8) -> (byte: u8)
    requires
        value <= 9,
    ensures
        byte == spec_digit(value as nat),
        spec_is_digit(byte),
        spec_digit_value(byte) == value,
{
    0x30 + value
}

/// `byte` with a small letter turned into its capital, any other byte as it
/// is.
pub open spec fn spec_to_upper(byte: u8) -> u8 {
    if 0x61 <= byte <= 0x7a {
        (byte - 0x20) as u8
    } else {
        byte
    }
}

/// `byte` with a small letter turned into its capital, any other byte as it
/// is.
#[verifier::when_used_as_spec(spec_to_upper)]
pub fn to_upper(byte: u8) -> (upper: u8)
    ensures
        upper == spec_to_upper(byte),
{
    if 0x61 <= byte && byte <= 0x7a {
        byte - 0x20
    } else {
        byte
    }
}

/// Whether `byte` is `+` or `-`.
pub open spec fn spec_is_sign(byte: u8) -> bool {
    byte == PLUS || byte == MINUS
}

/// Whether `byte` is `+` or `-`.
#[verifier::when_used_as_spec(spec_is_sign)]
pub fn is_sign(byte: u8) -> (sign: bool)
    ensures
        sign == spec_is_sign(byte),
{
    byte == PLUS || byte == MINUS
}

} // verus!
