//! The order of sample words.
//!
//! A sample word is the IEEE 754 binary64 bit pattern of a number: a sign
//! bit above a 63-bit magnitude. Magnitudes above that of infinity encode no
//! number. Among the words that encode one, the numbers are ordered as their
//! signed magnitudes are, with the two zeros equal; a word that encodes no
//! number is neither below, above, nor equal to any word.

use vstd::prelude::*;

verus! {

/// The sign bit of a word.
pub const SIGN_BIT: u64 = 0x8000_0000_0000_0000;

/// The word of positive zero.
pub const ZERO: u64 = 0;

/// The word of positive infinity, the largest magnitude that encodes a
/// number.
pub const INFINITY: u64 = 0x7ff0_0000_0000_0000;

/// The word of the largest finite number.
pub const LARGEST: u64 = 0x7fef_ffff_ffff_ffff;

/// The word of the lowest finite number.
pub const LOWEST: u64 = 0xffef_ffff_ffff_ffff;

/// Whether the sign bit of a word is set.
pub open spec fn is_negative(word: u64) -> bool {
    word >= SIGN_BIT
}

/// A word with its sign bit cleared: the word of the absolute value.
pub open spec fn magnitude_of(word: u64) -> u64 {
    if word >= SIGN_BIT {
        (word - SIGN_BIT) as u64
    } else {
        word
    }
}

/// Whether a word encodes no number.
pub open spec fn is_nan(word: u64) -> bool {
    magnitude_of(word) > INFINITY
}

/// The place of a word's number in the order of numbers: its magnitude,
/// counted down from zero where the sign bit is set.
pub open spec fn rank(word: u64) -> int {
    if is_negative(word) {
        -(magnitude_of(word) as int)
    } else {
        magnitude_of(word) as int
    }
}

/// Whether the number of `left` is below that of `right`.
pub open spec fn is_below(left: u64, right: u64) -> bool {
    !is_nan(left) && !is_nan(right) && rank(left) < rank(right)
}

/// Whether the sign bit of `word` is set.
pub fn sign_bit_set(word: u64) -> (set: bool)
    ensures
        set == is_negative(word),
{
    word >= SIGN_BIT
}

/// The word of the absolute value: `word` with its sign bit cleared.
pub fn magnitude(word: u64) -> (cleared: u64)
    ensures
        cleared == magnitude_of(word),
        !is_negative(cleared),
        is_nan(cleared) == is_nan(word),
{
    if word >= SIGN_BIT {
        word - SIGN_BIT
    } else {
        word
    }
}

/// Whether `word` encodes no number.
pub fn encodes_no_number(word: u64) -> (none: bool)
    ensures
        none == is_nan(word),
{
    magnitude(word) > INFINITY
}

/// Whether the number of `left` is below that of `right`. False where either
/// encodes no number.
pub fn below(left: u64, right: u64) -> (lower: bool)
    ensures
        lower == is_below(left, right),
{
    if encodes_no_number(left) || encodes_no_number(right) {
        return false;
    }
    let left_size = magnitude(left);
    let right_size = magnitude(right);
    if left >= SIGN_BIT {
        if right >= SIGN_BIT {
            right_size < left_size
        } else {
            left_size != 0 || right_size != 0
        }
    } else {
        if right >= SIGN_BIT {
            false
        } else {
            left_size < right_size
        }
    }
}

} // verus!
