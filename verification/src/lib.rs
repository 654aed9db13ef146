//! A fixed-point decimal scalar: an integer significand scaled by a power of
//! ten. Unlike native floating point, values of this type can be hashed, so
//! they can serve as keys in hash-based containers. Arithmetic on two values
//! of differing scale first aligns the operand with the smaller scale up to
//! the larger one, preserving precision.
//!
//! All significand and scale arithmetic is 64-bit two's-complement with
//! wraparound on overflow; overflow is never detected or reported.

mod arith;
mod decimal;
pub mod laws;
mod parse;
mod render;

pub use parse::all_digits;
pub use parse::digit_value;
pub use parse::digits_part;
pub use parse::digits_value;
pub use parse::sign_of;
pub use parse::parse_digits;
pub use parse::spec_from_str_radix;
pub use parse::ParseError;

pub use decimal::spec_sum;

pub use render::dec_digits;
pub use render::digit_byte;
pub use render::frac_digits;
pub use render::int_digits;
pub use render::print_bytes;
pub use render::strip_count;
pub use render::stripped;

pub use decimal::IntFloat;

pub use arith::pow10;
pub use arith::trunc_div;
pub use arith::wrap64;
