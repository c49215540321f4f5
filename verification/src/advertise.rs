//! Errors of advertisement data handling.

use vstd::prelude::*;

verus! {

/// Why advertisement data could not be encoded.
#[derive(Debug, Clone, Copy, PartialEq, Eq, Structural)]
pub enum AdvertisementDataError {
    /// The data does not fit into one advertisement.
    TooLong,
}

} // verus!
