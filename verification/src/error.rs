//! What can be wrong with a snapshot or with the stream that carries it. Every
//! one of these is fatal to the session.

use vstd::prelude::*;

verus! {

/// The stream does not follow the protocol.
#[derive(Clone, Copy, Debug, PartialEq, Eq, Structural)]
pub enum ProtocolError {
    /// The payload is not the encoding of any message.
    Malformed,
    /// The message arrived when it was not expected: before the node said
    /// that it is ready, or after the snapshot.
    OutOfOrder,
    /// The payload is too long for the length prefix of a frame.
    FrameTooLong,
    /// The stream ends before the frame does.
    Truncated,
}

/// The snapshot is corrupted.
#[derive(Clone, Copy, Debug, PartialEq, Eq, Structural)]
pub enum IntegrityError {
    /// A page was pushed that does not have exactly the size of a page.
    WrongPageLength { page_id: u32, len: usize },
    /// A mapping names a page that was never pushed.
    UnknownPage { page_id: u32 },
    /// A region that was claimed with one end is named again with another.
    InconsistentRegion { start: u64 },
    /// The end of a region lies before its start, or the region is the whole
    /// address space, whose length no register can hold.
    InvalidRange { start: u64, end: u64 },
}

/// Why a session failed.
#[derive(Clone, Copy, Debug, PartialEq, Eq, Structural)]
pub enum SessionError {
    Protocol(ProtocolError),
    Integrity(IntegrityError),
}

} // verus!
