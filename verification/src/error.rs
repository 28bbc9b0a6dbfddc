//! Error codes.

use vstd::prelude::*;

verus! {

/// The error codes that the driver reports.
#[derive(Debug, Clone, Copy, PartialEq, Eq, Structural)]
pub enum Error {
    /// Invalid argument or malformed data.
    EINVAL,
    /// The device answered with something unusable.
    EIO,
    /// Not enough room now; retry later.
    EAGAIN,
    /// An address or a size does not fit its type.
    EOVERFLOW,
    /// The device did not answer in time.
    ETIMEDOUT,
    /// The message is well-formed, but it is not the one that was asked for.
    ERANGE,
}

} // verus!
