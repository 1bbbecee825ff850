//! The failure that a deletion can report.

use vstd::prelude::*;

verus! {

/// Why a deletion stopped. It carries a message for the caller and nothing
/// that the caller is meant to take apart.
#[derive(Debug, PartialEq, Eq)]
pub struct DeleteError {
    pub message: String,
}

} // verus!
