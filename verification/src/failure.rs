//! What the library is told of an I/O error.

use vstd::prelude::*;

verus! {

/// The class of an I/O error: whether the file was missing, or anything else
/// went wrong.
#[derive(Debug, Clone, Copy, PartialEq, Eq, Structural)]
pub enum IoFailure {
    /// The file or directory does not exist.
    NotFound,
    /// Any other error: permissions, a failing device.
    Other,
}

} // verus!
