//! Attribute protocol error codes.

use vstd::prelude::*;

verus! {

/// An error code of the attribute protocol, as carried in an error response.
#[derive(Debug, Clone, Copy, PartialEq, Eq, Structural)]
pub struct AttErrorCode {
    value: u8,
}

impl AttErrorCode {
    /// The numeric code.
    pub closed spec fn code(self) -> u8 {
        self.value
    }

    /// Wraps a numeric code.
    pub fn new(value: u8) -> (r: Self)
        ensures
            r.code() == value,
    {
        AttErrorCode { value }
    }

    /// The numeric code.
    pub fn to_u8(&self) -> (r: u8)
        ensures
            r == self.code(),
    {
        self.value
    }
}

} // verus!
