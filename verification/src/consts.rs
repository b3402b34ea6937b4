//! The prefix codes of the variable-length integer encoding.

use vstd::prelude::*;

verus! {

/// Announces a negative number that fits in eight bits.
pub const CODE_NEG_INT8: u8 = 0xff;

/// Announces a sixteen-bit field.
pub const CODE_INT16: u8 = 0xfe;

/// Announces a thirty-two-bit field.
pub const CODE_INT32: u8 = 0xfd;

/// Announces a sixty-four-bit field.
pub const CODE_INT64: u8 = 0xfc;

} // verus!
