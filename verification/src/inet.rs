//! Faults of the transport, and what to do after one read of it.

use vstd::prelude::*;
use crate::data::DataError;

verus! {

/// Faults of the transport underneath a connection.
#[derive(Debug, Clone, Copy, PartialEq, Eq, Structural)]
pub enum InetError {
    /// The listening socket could not be bound.
    BindError,
    /// The peer shut the connection down.
    ConnectionClosed,
}

/// What one read of a transport came to.
#[derive(Debug, Clone, Copy, PartialEq, Eq, Structural)]
pub enum ReadOutcome {
    /// So many bytes arrived; none means that the peer shut down.
    Bytes(usize),
    /// The transport reported that the stream ended, broke or was reset.
    Closed,
    /// The transport reported any other fault.
    Failed,
}

/// What a reader that wants a fixed count of bytes does next.
#[derive(Debug, Clone, Copy, PartialEq, Eq, Structural)]
pub enum ReadProgress {
    /// All the bytes are there.
    Done,
    /// So many bytes are still to be read.
    More(usize),
    /// The read is given up with this fault; nothing of what arrived is handed on.
    Fault(DataError),
}

/// What follows one read, where `wanted` bytes were still missing before it:
/// the read is done once they all arrived, goes on while some are missing,
/// and is given up with `ConnectionClosed` where the peer shut down and with
/// `ReadError` on any other fault.
pub open spec fn read_progress(wanted: usize, outcome: ReadOutcome) -> ReadProgress {
    match outcome {
        ReadOutcome::Bytes(n) => if n >= wanted {
            ReadProgress::Done
        } else if n == 0 {
            ReadProgress::Fault(DataError::Inet(InetError::ConnectionClosed))
        } else {
            ReadProgress::More((wanted - n) as usize)
        },
        ReadOutcome::Closed => ReadProgress::Fault(DataError::Inet(InetError::ConnectionClosed)),
        ReadOutcome::Failed => ReadProgress::Fault(DataError::ReadError),
    }
}

/// Decides what follows one read of a transport from which `wanted` bytes
/// were still missing.
pub fn after_read(wanted: usize, outcome: ReadOutcome) -> (next: ReadProgress)
    ensures
        next == read_progress(wanted, outcome),
{
    match outcome {
        ReadOutcome::Bytes(n) => {
            if n >= wanted {
                ReadProgress::Done
            } else if n == 0 {
                ReadProgress::Fault(DataError::Inet(InetError::ConnectionClosed))
            } else {
                ReadProgress::More(wanted - n)
            }
        },
        ReadOutcome::Closed => ReadProgress::Fault(DataError::Inet(InetError::ConnectionClosed)),
        ReadOutcome::Failed => ReadProgress::Fault(DataError::ReadError),
    }
}

/// A read that goes on wants fewer bytes than before, so a reader that
/// follows [`after_read`] comes to an end after at most `wanted` reads.
pub proof fn lemma_read_progress_decreases(wanted: usize, outcome: ReadOutcome)
    ensures
        read_progress(wanted, outcome) matches ReadProgress::More(left) ==> 0 < left < wanted,
{
}

} // verus!
