//! Dice notation, read and rolled.
//!
//! A text such as `3d6 2d8 1d20` is read into rolls with [`parse_rolls`], and
//! a [`DiceBag`] rolls them and sums up what the dice show in
//! [`RollResults`].
//!
//! A roll is a number of dice, `d`, and the shape of the die: a number of
//! faces (`6`), `F` for a fudge die, `%` for a percentile die, or a list of
//! faces in braces (`{1,1,0,0,-1,-1}`).

pub mod bag;
pub mod error;
pub mod laws;
pub mod listing;
pub mod notation;
pub mod pattern;
pub mod random;
pub mod roll;
pub mod shape;
pub mod spacing;
pub mod summary;
pub mod text;

pub use bag::DiceBag;
pub use error::ParseRollError;
pub use notation::parse_rolls;
pub use roll::Roll;
pub use summary::RollResults;
