//! The errors of the library.

use crate::ledger::BorrowError;
use vstd::prelude::*;

verus! {

/// Everything that can go wrong in the scheduler, its handles and its views of buffers.
#[derive(Clone, Debug, PartialEq, Eq)]
pub enum JlrsError {
    /// The channel has no room now; try again later.
    ChannelFull,
    /// The receiving side is gone: the runtime has shut down or the task was abandoned.
    ChannelClosed,
    /// The runtime was started before.
    AlreadyInitialized,
    /// The host engine was given fewer threads than the scheduler needs.
    MoreThreadsRequired,
    /// The file to include does not exist.
    IncludeNotFound(String),
    /// The memory is borrowed in a way that excludes the request.
    Borrow(BorrowError),
    /// A resize was asked of a buffer that does not have exactly one dimension.
    NotOneDimensional,
    /// The buffer's elements do not have the requested layout.
    InvalidLayout,
    /// A resize would take the buffer past its bounds.
    OutOfBounds,
    /// The host engine threw; the message describes the exception.
    Exception(String),
}

/// The result type of the library.
pub type JlrsResult<T> = Result<T, JlrsError>;

} // verus!
