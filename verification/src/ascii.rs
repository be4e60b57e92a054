//! The ASCII codes that the request grammar names.

use vstd::prelude::*;

verus! {

/// The space character.
pub const SPACE: u8 = 32;

/// `%`, which opens an escaped byte.
pub const PERCENT: u8 = 37;

/// `&`, which separates the pairs of a form.
pub const AMPERSAND: u8 = 38;

/// `+`, which stands for a space in a form, and may open a numeral.
pub const PLUS: u8 = 43;

/// The digit `0`.
pub const DIGIT_0: u8 = 48;

/// The digit `9`.
pub const DIGIT_9: u8 = 57;

/// `=`, which separates a name from its value.
pub const EQUALS: u8 = 61;

/// The letter `A`.
pub const UPPER_A: u8 = 65;

/// The letter `F`.
pub const UPPER_F: u8 = 70;

/// The letter `a`.
pub const LOWER_A: u8 = 97;

/// The letter `f`.
pub const LOWER_F: u8 = 102;

/// The letter `m`.
pub const LOWER_M: u8 = 109;

/// The letter `n`.
pub const LOWER_N: u8 = 110;

} // verus!
