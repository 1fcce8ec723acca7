//! The ways in which dice notation can be wrong.

use vstd::prelude::*;

verus! {

/// Why a piece of dice notation was rejected.
#[derive(Debug, Clone, Copy, PartialEq, Eq, Structural)]
pub enum ParseRollError {
    /// The text is not an optional number of dice, `d`, and a shape.
    InvalidRoll,
    /// The number of dice is zero, or too large to count.
    InvalidDiceCount,
    /// The number of faces is neither a numeral nor one of the special dice,
    /// or is too large to count.
    InvalidSides,
    /// No die has this number of faces.
    ImpossibleDie(u32),
    /// A list of faces does not open with `{`.
    CustomDieSyntaxError,
    /// A face opens with this character, which is neither a digit nor `-`.
    InvalidDigit(char),
    /// A face holds a character that has no place in a number, has no digit
    /// at all, or is too large in magnitude.
    InvalidDieValue,
}

} // verus!
