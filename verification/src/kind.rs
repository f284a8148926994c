//! The tags by which the engine names the kinds of elements.

use vstd::prelude::*;

verus! {

/// Signed 8-bit integers.
pub const NC_BYTE: i32 = 1;

/// Characters.
pub const NC_CHAR: i32 = 2;

/// Signed 16-bit integers.
pub const NC_SHORT: i32 = 3;

/// Signed 32-bit integers.
pub const NC_INT: i32 = 4;

/// 32-bit floating point numbers.
pub const NC_FLOAT: i32 = 5;

/// 64-bit floating point numbers.
pub const NC_DOUBLE: i32 = 6;

/// Unsigned 8-bit integers.
pub const NC_UBYTE: i32 = 7;

/// Unsigned 16-bit integers.
pub const NC_USHORT: i32 = 8;

/// Unsigned 32-bit integers.
pub const NC_UINT: i32 = 9;

/// Signed 64-bit integers.
pub const NC_INT64: i32 = 10;

/// Unsigned 64-bit integers.
pub const NC_UINT64: i32 = 11;

} // verus!
