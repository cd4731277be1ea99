//! Client-side core of a length-prefixed, request/response, multiplexed
//! binary wire protocol for a coordination service.
//!
//! The crate provides the packetizer: it encodes typed requests into the
//! wire format, frames and buffers outbound bytes, reassembles inbound
//! bytes into complete frames despite partial reads, decodes frames into
//! typed responses given the operation they answer, and correlates each
//! inbound response with the outbound request that caused it, including
//! the protocol's special unframed-id handshake exchange.
//!
//! Everything here is pure state: the transport and the task plumbing
//! live outside and drive this crate through plain byte chunks.

use vstd::prelude::*;

pub mod error;
pub mod packetizer;
pub mod request;
pub mod response;
pub mod table;
pub mod wire;

use crate::error::ZkError;
use crate::request::Request;
use crate::response::{Response, Stat};

verus! {

/// The handshake request a fresh connection opens with: protocol
/// version zero, no transaction seen, no timeout preference, no session
/// to resume, an empty password, and read-write intent.
pub fn handshake_request() -> (r: Request)
    ensures
        r matches Request::Connect {
            protocol_version,
            last_zxid_seen,
            timeout,
            session_id,
            passwd,
            read_only,
        } && protocol_version == 0 && last_zxid_seen == 0 && timeout == 0 && session_id == 0
            && passwd@.len() == 0 && read_only == false,
{
    Request::Connect {
        protocol_version: 0,
        last_zxid_seen: 0,
        timeout: 0,
        session_id: 0,
        passwd: Vec::new(),
        read_only: false,
    }
}

/// What an existence check concludes from its reply: the node's
/// metadata, `None` where the server answered "no such node" — a
/// per-call outcome, not a connection failure — and any other server
/// error as it stands. A reply of another operation kind cannot answer
/// an existence check and is left out by contract.
pub fn interpret_exists_reply(reply: Result<Response, ZkError>) -> (r: Result<
    Option<Stat>,
    ZkError,
>)
    requires
        reply matches Ok(resp) ==> resp is Exists,
    ensures
        match reply {
            Ok(Response::Exists { stat }) => r == Ok::<Option<Stat>, ZkError>(Some(stat)),
            Err(e) => if e is NoNode {
                r == Ok::<Option<Stat>, ZkError>(None::<Stat>)
            } else {
                r == Err::<Option<Stat>, ZkError>(e)
            },
            _ => true,
        },
{
    match reply {
        Ok(Response::Exists { stat }) => Ok(Some(stat)),
        Ok(_) => vstd::pervasive::unreached(),
        Err(ZkError::NoNode) => Ok(None),
        Err(e) => Err(e),
    }
}

} // verus!
