//! Error taxonomy of the protocol core.
//!
//! Decode errors describe why one frame's payload could not be turned into
//! a typed response; connection errors are fatal to the whole connection.
//! Domain errors are the server answering a well-formed request with an
//! application error code; they concern one caller only and leave the
//! connection alive.

use vstd::prelude::*;

verus! {

/// Why a frame payload failed to decode into a typed response.
#[derive(Clone, Copy, Debug, PartialEq, Eq, Structural)]
pub enum DecodeError {
    /// The payload ended before the fields of the expected response did,
    /// or a length-prefixed field declared more bytes than remain.
    ShortInput,
    /// The payload holds bytes beyond the end of the expected response.
    TrailingBytes,
    /// A length-prefixed string field was not valid UTF-8.
    BadUtf8,
    /// The decoder does not support this operation kind.
    UnsupportedOp,
}

/// An application-level error code sent by the server in place of a
/// response body. Not fatal to the connection: it is delivered to the one
/// caller whose request produced it.
#[derive(Clone, Copy, Debug, PartialEq, Eq, Structural)]
pub enum ZkError {
    /// The named node does not exist.
    NoNode,
    /// Any other nonzero error code.
    Other(i32),
}

pub const NO_NODE_CODE: i32 = -101;

impl ZkError {
    /// The wire code this error decodes from.
    pub open spec fn spec_code(self) -> i32 {
        match self {
            ZkError::NoNode => NO_NODE_CODE,
            ZkError::Other(c) => c,
        }
    }

    /// A decoded error is never the success code and named codes are not
    /// hidden inside `Other`.
    pub open spec fn wf(self) -> bool {
        match self {
            ZkError::NoNode => true,
            ZkError::Other(c) => c != 0 && c != NO_NODE_CODE,
        }
    }
}

/// The error a nonzero wire code decodes to.
pub open spec fn spec_zk_error_of(code: i32) -> ZkError
    recommends
        code != 0,
{
    if code == NO_NODE_CODE {
        ZkError::NoNode
    } else {
        ZkError::Other(code)
    }
}

/// Exec twin of [`spec_zk_error_of`].
pub fn zk_error_of(code: i32) -> (e: ZkError)
    requires
        code != 0,
    ensures
        e == spec_zk_error_of(code),
        e.wf(),
{
    if code == NO_NODE_CODE {
        ZkError::NoNode
    } else {
        ZkError::Other(code)
    }
}

/// A connection-fatal condition. Every outstanding caller is failed with
/// it and the packetizer terminates.
#[derive(Clone, Copy, Debug, PartialEq, Eq, Structural)]
pub enum Error {
    /// The transport reported a read or write failure.
    Transport,
    /// The transport closed cleanly while this many bytes of an
    /// in-progress frame sat in the inbound buffer.
    Truncated { left: usize },
    /// The transport closed cleanly, or the submission side shut down,
    /// while requests were still waiting for their responses.
    OutstandingAtClose,
    /// A frame declared a length that no frame can have: negative, or too
    /// short to carry the correlation id the frame must contain.
    BadFrameLength(i32),
    /// A complete frame's payload could not be decoded; the protocol
    /// offers no recovery mid-stream.
    Malformed(DecodeError),
    /// The server answered a correlation id that was never issued or was
    /// already answered: the streams are out of step.
    UnknownId(i32),
    /// The correlation id space is exhausted; accepting the request would
    /// risk colliding with a live id.
    IdsExhausted,
    /// A request was so large its frame length cannot be represented.
    FrameTooLarge,
}

} // verus!
