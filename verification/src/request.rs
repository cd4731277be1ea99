//! Typed requests and their wire encoding.
//!
//! A request is a tagged union; each variant carries exactly the fields
//! its operation needs. Encoding is deterministic, with a fixed field
//! order per operation, and total over well-formed request values. The
//! handshake (`Connect`) is positional: its frame carries no correlation
//! id, and its payload carries no opcode field either; every other
//! request's payload begins with the operation's code.

use vstd::prelude::*;

use vstd::utf8::encode_utf8;

use crate::wire::{enc_bool, enc_buffer, enc_i32, enc_i64, write_bool, write_buffer, write_i32_be,
    write_i64_be};

verus! {

/// Closed enumeration of the operation kinds the protocol defines. Only
/// some have encode/decode support so far; the rest are reserved for
/// future growth and decode as an explicit "unsupported" failure.
#[derive(Clone, Copy, Debug, PartialEq, Eq, Structural)]
pub enum OpCode {
    Notification,
    Create,
    Delete,
    Exists,
    GetData,
    SetData,
    GetACL,
    SetACL,
    GetChildren,
    Synchronize,
    Ping,
    GetChildren2,
    Check,
    Multi,
    Auth,
    SetWatches,
    Sasl,
    CreateSession,
    CloseSession,
    Error,
}

impl OpCode {
    /// The integer this operation is identified by on the wire.
    pub open spec fn spec_code(self) -> i32 {
        match self {
            OpCode::Notification => 0,
            OpCode::Create => 1,
            OpCode::Delete => 2,
            OpCode::Exists => 3,
            OpCode::GetData => 4,
            OpCode::SetData => 5,
            OpCode::GetACL => 6,
            OpCode::SetACL => 7,
            OpCode::GetChildren => 8,
            OpCode::Synchronize => 9,
            OpCode::Ping => 11,
            OpCode::GetChildren2 => 12,
            OpCode::Check => 13,
            OpCode::Multi => 14,
            OpCode::Auth => 100,
            OpCode::SetWatches => 101,
            OpCode::Sasl => 102,
            OpCode::CreateSession => -10i32,
            OpCode::CloseSession => -11i32,
            OpCode::Error => -1i32,
        }
    }

    /// Exec twin of [`Self::spec_code`].
    pub fn code(&self) -> (c: i32)
        ensures
            c == self.spec_code(),
    {
        match self {
            OpCode::Notification => 0,
            OpCode::Create => 1,
            OpCode::Delete => 2,
            OpCode::Exists => 3,
            OpCode::GetData => 4,
            OpCode::SetData => 5,
            OpCode::GetACL => 6,
            OpCode::SetACL => 7,
            OpCode::GetChildren => 8,
            OpCode::Synchronize => 9,
            OpCode::Ping => 11,
            OpCode::GetChildren2 => 12,
            OpCode::Check => 13,
            OpCode::Multi => 14,
            OpCode::Auth => 100,
            OpCode::SetWatches => 101,
            OpCode::Sasl => 102,
            OpCode::CreateSession => -10i32,
            OpCode::CloseSession => -11i32,
            OpCode::Error => -1i32,
        }
    }
}

/// A typed request, owned by the packetizer once submitted and consumed
/// during encoding.
#[derive(Debug)]
pub enum Request {
    /// The session handshake: the one positional request, framed without
    /// a correlation id.
    Connect {
        protocol_version: i32,
        last_zxid_seen: i64,
        timeout: i32,
        session_id: i64,
        passwd: Vec<u8>,
        read_only: bool,
    },
    /// Ask whether a node exists at a path, optionally leaving a watch.
    Exists { path: String, watch: bool },
}

/// The UTF-8 bytes a string field is encoded as.
pub open spec fn str_bytes(s: Seq<char>) -> Seq<u8> {
    encode_utf8(s)
}

impl Request {
    /// The operation kind this request belongs to.
    pub open spec fn spec_opcode(self) -> OpCode {
        match self {
            Request::Connect { .. } => OpCode::CreateSession,
            Request::Exists { .. } => OpCode::Exists,
        }
    }

    /// Exec twin of [`Self::spec_opcode`].
    pub fn opcode(&self) -> (o: OpCode)
        ensures
            o == self.spec_opcode(),
    {
        match self {
            Request::Connect { .. } => OpCode::CreateSession,
            Request::Exists { .. } => OpCode::Exists,
        }
    }

    /// Whether this request's frame is positional, carrying no
    /// correlation id in either direction.
    pub open spec fn is_positional(self) -> bool {
        self is Connect
    }

    /// Exec twin of [`Self::is_positional`].
    pub fn positional(&self) -> (b: bool)
        ensures
            b == self.is_positional(),
    {
        match self {
            Request::Connect { .. } => true,
            Request::Exists { .. } => false,
        }
    }

    /// The opcode-specific payload bytes of this request: everything in
    /// its frame after the length prefix and the correlation id.
    pub open spec fn spec_payload(self) -> Seq<u8> {
        match self {
            Request::Connect {
                protocol_version,
                last_zxid_seen,
                timeout,
                session_id,
                passwd,
                read_only,
            } => enc_i32(protocol_version) + enc_i64(last_zxid_seen) + enc_i32(timeout) + enc_i64(
                session_id,
            ) + enc_buffer(passwd@) + enc_bool(read_only),
            Request::Exists { path, watch } => enc_i32(OpCode::Exists.spec_code()) + enc_buffer(
                str_bytes(path@),
            ) + enc_bool(watch),
        }
    }

    /// Whether the request is small enough to frame: the frame's length
    /// field must count the payload, plus the correlation id for
    /// non-positional requests, within `i32::MAX`.
    pub open spec fn spec_fits(self) -> bool {
        self.spec_payload().len() + (if self.is_positional() {
            0int
        } else {
            4int
        }) <= 0x7fff_ffff
    }

    /// Exec twin of [`Self::spec_fits`].
    pub fn fits(&self) -> (r: bool)
        ensures
            r == self.spec_fits(),
    {
        match self {
            Request::Connect { passwd, .. } => {
                proof {
                    assert(self.spec_payload().len() == 29 + passwd@.len());
                }
                passwd.len() <= 0x7fff_ffff - 29
            },
            Request::Exists { path, .. } => {
                proof {
                    assert(self.spec_payload().len() == 9 + str_bytes(path@).len());
                }
                path.as_str().as_bytes().len() <= 0x7fff_ffff - 13
            },
        }
    }

    /// Append this request's payload to `buffer`.
    pub fn serialize_into(&self, buffer: &mut Vec<u8>)
        requires
            self.spec_fits(),
        ensures
            final(buffer)@ == old(buffer)@ + self.spec_payload(),
    {
        match self {
            Request::Connect {
                protocol_version,
                last_zxid_seen,
                timeout,
                session_id,
                passwd,
                read_only,
            } => {
                write_i32_be(buffer, *protocol_version);
                write_i64_be(buffer, *last_zxid_seen);
                write_i32_be(buffer, *timeout);
                write_i64_be(buffer, *session_id);
                write_buffer(buffer, passwd.as_slice());
                write_bool(buffer, *read_only);
                assert(buffer@ =~= old(buffer)@ + self.spec_payload());
            },
            Request::Exists { path, watch } => {
                write_i32_be(buffer, OpCode::Exists.code());
                write_buffer(buffer, path.as_str().as_bytes());
                write_bool(buffer, *watch);
                assert(buffer@ =~= old(buffer)@ + self.spec_payload());
            },
        }
    }
}

} // verus!
