//! Exact base-10 fixed-point arithmetic on a 64-bit unscaled value and a
//! 32-bit scale, with a parser and a formatter for decimal literals, plus a
//! few small integer utilities (a Luhn check digit, a number-guessing game's
//! decisions).
pub mod arith;
pub mod guess;
pub mod laws;
pub mod luhn;
pub mod math;
pub mod ops;
pub mod order;
pub mod parse;
pub mod render;
pub mod value;

pub use parse::{DecimalErrorKind, ParseDecimalError};
pub use value::Decimal;
