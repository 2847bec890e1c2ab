//! Classification of characters given as C integers, by their low byte, and the absolute
//! value of C integers.

use vstd::prelude::*;

verus! {

/// The low byte of a C integer.
pub open spec fn low_byte_spec(c: int) -> int {
    c % 256
}

/// Whether a byte is a decimal digit.
pub open spec fn is_digit_byte(b: int) -> bool {
    48 <= b <= 57
}

/// Whether a byte is an upper-case letter of the alphabet.
pub open spec fn is_upper_byte(b: int) -> bool {
    65 <= b <= 90
}

/// Whether a byte is a lower-case letter of the alphabet.
pub open spec fn is_lower_byte(b: int) -> bool {
    97 <= b <= 122
}

/// Whether a byte is white space: tab, line feed, vertical tab, form feed, carriage return,
/// space, next line or no-break space.
pub open spec fn is_space_byte(b: int) -> bool {
    (9 <= b <= 13) || b == 32 || b == 133 || b == 160
}

/// One for true, zero for false.
pub open spec fn flag(b: bool) -> int {
    if b {
        1
    } else {
        0
    }
}

/// The low byte of a C integer.
pub fn low_byte(c: i32) -> (b: u8)
    ensures
        b == low_byte_spec(c as int),
{
    match c.checked_rem_euclid(256) {
        Some(r) => r as u8,
        None => 0,
    }
}

/// One if the character is white space, else zero.
pub fn isspace(c: i32) -> (r: i32)
    ensures
        r == flag(is_space_byte(low_byte_spec(c as int))),
{
    let b: u8 = low_byte(c);
    if (9 <= b && b <= 13) || b == 32 || b == 133 || b == 160 {
        1
    } else {
        0
    }
}

/// One if the character is a decimal digit, else zero.
pub fn isdigit(c: i32) -> (r: i32)
    ensures
        r == flag(is_digit_byte(low_byte_spec(c as int))),
{
    let b: u8 = low_byte(c);
    if 48 <= b && b <= 57 {
        1
    } else {
        0
    }
}

/// One if the character is a letter of the alphabet, else zero.
pub fn isalpha(c: i32) -> (r: i32)
    ensures
        r == flag(
            is_upper_byte(low_byte_spec(c as int)) || is_lower_byte(low_byte_spec(c as int)),
        ),
{
    let b: u8 = low_byte(c);
    if (65 <= b && b <= 90) || (97 <= b && b <= 122) {
        1
    } else {
        0
    }
}

/// One if the character is a letter of the alphabet or a decimal digit, else zero.
pub fn isalnum(c: i32) -> (r: i32)
    ensures
        r == flag(
            is_upper_byte(low_byte_spec(c as int)) || is_lower_byte(low_byte_spec(c as int))
                || is_digit_byte(low_byte_spec(c as int)),
        ),
{
    let b: u8 = low_byte(c);
    if (65 <= b && b <= 90) || (97 <= b && b <= 122) || (48 <= b && b <= 57) {
        1
    } else {
        0
    }
}

/// One if the character is an upper-case letter, else zero.
pub fn isupper(c: i32) -> (r: i32)
    ensures
        r == flag(is_upper_byte(low_byte_spec(c as int))),
{
    let b: u8 = low_byte(c);
    if 65 <= b && b <= 90 {
        1
    } else {
        0
    }
}

/// One if the character is a lower-case letter, else zero.
pub fn islower(c: i32) -> (r: i32)
    ensures
        r == flag(is_lower_byte(low_byte_spec(c as int))),
{
    let b: u8 = low_byte(c);
    if 97 <= b && b <= 122 {
        1
    } else {
        0
    }
}

/// The low byte of the character, an upper-case letter turned into its lower-case one.
pub fn tolower(c: i32) -> (r: i32)
    ensures
        r == if is_upper_byte(low_byte_spec(c as int)) {
            low_byte_spec(c as int) + 32
        } else {
            low_byte_spec(c as int)
        },
{
    let b: u8 = low_byte(c);
    if 65 <= b && b <= 90 {
        (b + 32) as i32
    } else {
        b as i32
    }
}

/// The low byte of the character, a lower-case letter turned into its upper-case one.
pub fn toupper(c: i32) -> (r: i32)
    ensures
        r == if is_lower_byte(low_byte_spec(c as int)) {
            low_byte_spec(c as int) - 32
        } else {
            low_byte_spec(c as int)
        },
{
    let b: u8 = low_byte(c);
    if 97 <= b && b <= 122 {
        (b - 32) as i32
    } else {
        b as i32
    }
}

/// Absolute value of an integer other than the least.
pub fn abs(j: i32) -> (r: i32)
    requires
        j > i32::MIN,
    ensures
        r >= 0,
        r == j || r == -j,
{
    if j < 0 {
        -j
    } else {
        j
    }
}

/// Absolute value of a long integer other than the least.
pub fn labs(j: i64) -> (r: i64)
    requires
        j > i64::MIN,
    ensures
        r >= 0,
        r == j || r == -j,
{
    if j < 0 {
        -j
    } else {
        j
    }
}

} // verus!
