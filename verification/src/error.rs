//! The errors of the access layer.

use vstd::prelude::*;

verus! {

/// The status code with which the engine reports success.
pub const NC_NOERR: i32 = 0;

/// What is wrong with an index or a shape handed to an addressed operation.
#[derive(Clone, Copy, Debug, PartialEq, Eq, Structural)]
pub enum ShapeFault {
    /// The index has not one entry per dimension.
    IndexCount,
    /// The shape has not one entry per dimension.
    SliceCount,
    /// An index entry lies at or beyond the length of its dimension.
    IndexOutOfBounds,
    /// A region ends beyond the length of a dimension.
    SliceOutOfBounds,
    /// A region has no extent along a dimension.
    EmptySlice,
    /// The values at hand are not as many as the region holds.
    ValueCount,
    /// The number of elements is beyond what the machine's integers hold.
    TooLarge,
}

/// Why an operation was refused or failed.
#[derive(Clone, Copy, Debug, PartialEq, Eq, Structural)]
pub enum AccessError {
    /// The index or shape does not fit the variable.
    Shape(ShapeFault),
    /// The caller's buffer cannot hold `needed` elements.
    Capacity { needed: u64 },
    /// The variable's declared kind differs from the requested one and the
    /// caller did not allow a cast.
    TypeMismatch,
    /// The engine answered with this status code, which is not `NC_NOERR`.
    Engine(i32),
}

/// Turns the status code of an engine call into a result.
pub fn engine_status(code: i32) -> (r: Result<(), AccessError>)
    ensures
        code == NC_NOERR ==> r == Ok::<(), AccessError>(()),
        code != NC_NOERR ==> r == Err::<(), AccessError>(AccessError::Engine(code)),
{
    if code == NC_NOERR {
        Ok(())
    } else {
        Err(AccessError::Engine(code))
    }
}

} // verus!
