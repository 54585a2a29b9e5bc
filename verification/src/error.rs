//! The errors that the scheduler reports.

use vstd::prelude::*;

verus! {

/// Why an operation did not succeed.
#[derive(Debug, Clone, Copy, PartialEq, Eq, Structural)]
pub enum Error {
    /// There is nothing to do at the moment.
    Done,
    /// A path, stream or buffer is not in the state that the caller relied on.
    InternalError,
}

} // verus!
