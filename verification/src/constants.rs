//! Constant values of the wire format.

use vstd::prelude::*;

verus! {

/// First byte of an array frame.
pub const ARRAY_FIRST_BYTE: u8 = 42;

/// First byte of a bulk-string frame.
pub const BULK_STRING_FIRST_BYTE: u8 = 36;

/// First byte of an error frame.
pub const ERROR_FIRST_BYTE: u8 = 45;

/// First byte of an integer frame.
pub const INTEGER_FIRST_BYTE: u8 = 58;

/// First byte of a simple-string frame.
pub const SIMPLE_STRING_FIRST_BYTE: u8 = 43;

/// Carriage return.
pub const CR_BYTE: u8 = 13;

/// Line feed.
pub const LF_BYTE: u8 = 10;

/// Largest size, in elements or bytes, that a frame may declare: 512 MiB.
pub const RESPONSE_MAX_SIZE: i64 = 536870912;

} // verus!
