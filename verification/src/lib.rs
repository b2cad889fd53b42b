//! Conversion between hexadecimal text and arbitrary-precision integers.
//!
//! [`BigInt`] is a signed integer of unbounded magnitude, kept as a sign and
//! a canonical sequence of hexadecimal digit values. [`from_hex_to_big_int`]
//! reads an optionally `0x`-prefixed hexadecimal string; [`big_int_to_upper_hex`]
//! and [`big_int_to_lower_hex`] render a value back as `0x`-prefixed text.

pub mod big_int;
pub mod codec;
pub mod hex_math;

pub use big_int::BigInt;
pub use codec::ParseError;
pub use codec::big_int_to_lower_hex;
pub use codec::big_int_to_upper_hex;
pub use codec::from_hex_to_big_int;
