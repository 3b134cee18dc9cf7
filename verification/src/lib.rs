//! Decimal formatting of IEEE-754 binary floating-point values, working on their bit
//! patterns. The contracts fix the text exactly and prove that it spells the decimal the
//! scaling step picks. Laws place that decimal against the binary value: its decimal
//! exponent is that of the value's binary scale, and a significand kept alone lies in the
//! value's rounding interval, given an accurate power-of-ten table entry.
pub mod bytes;
pub mod digits;
pub mod magnitude;
pub mod double;
pub mod single;
pub mod tables;
pub mod text;
pub mod value;

pub use double::{xjb64, xjb64_with_table};
pub use tables::{Pow10Double, Pow10Float};
pub use single::{xjb32, xjb32_with_table};
