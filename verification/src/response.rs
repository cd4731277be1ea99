//! Typed responses and their decoding.
//!
//! A frame's payload is only interpretable against the operation kind of
//! the request it answers: the decoder takes that kind as an explicit
//! input. For the positional handshake reply the payload is the response
//! body itself; for every id-tagged reply the payload begins with a
//! 4-byte result code — zero means success and the body follows, any
//! other value is a domain-level server error delivered to the one
//! caller whose request produced it.

use vstd::prelude::*;

use vstd::seq_lib::lemma_concat_associative;
use vstd::utf8::{decode_utf8, valid_utf8};

use crate::error::{spec_zk_error_of, zk_error_of, DecodeError, ZkError};
use crate::request::OpCode;
use crate::wire::{enc_bool, enc_buffer, enc_i32, enc_i64, sp_bool, sp_buffer, sp_i32, sp_i64,
    ByteReader};

verus! {

/// Fixed-layout metadata about a stored node: eleven fixed-width
/// big-endian fields, produced only by decoding.
#[derive(Clone, Copy, Debug, PartialEq, Eq, Structural)]
pub struct Stat {
    /// Transaction id that created the node.
    pub czxid: i64,
    /// Transaction id that last modified the node.
    pub mzxid: i64,
    /// Creation timestamp.
    pub ctime: i64,
    /// Last-modification timestamp.
    pub mtime: i64,
    /// Data version.
    pub version: i32,
    /// Child-list version.
    pub cversion: i32,
    /// ACL version.
    pub aversion: i32,
    /// Session id of the owner if the node is ephemeral, else zero.
    pub ephemeral_owner: i64,
    /// Length of the node's data.
    pub data_length: i32,
    /// Number of children.
    pub num_children: i32,
    /// Transaction id of the last change to the child list.
    pub pzxid: i64,
}

/// Wire image of a `Stat`.
pub open spec fn enc_stat(s: Stat) -> Seq<u8> {
    enc_i64(s.czxid) + enc_i64(s.mzxid) + enc_i64(s.ctime) + enc_i64(s.mtime) + enc_i32(s.version)
        + enc_i32(s.cversion) + enc_i32(s.aversion) + enc_i64(s.ephemeral_owner) + enc_i32(
    s.data_length) + enc_i32(s.num_children) + enc_i64(s.pzxid)
}

/// Reading a `Stat` from the front of a byte sequence.
pub open spec fn sp_stat(b: Seq<u8>) -> Option<(Stat, Seq<u8>)> {
    match sp_i64(b) {
        None => None,
        Some((czxid, b)) => match sp_i64(b) {
            None => None,
            Some((mzxid, b)) => match sp_i64(b) {
                None => None,
                Some((ctime, b)) => match sp_i64(b) {
                    None => None,
                    Some((mtime, b)) => match sp_i32(b) {
                        None => None,
                        Some((version, b)) => match sp_i32(b) {
                            None => None,
                            Some((cversion, b)) => match sp_i32(b) {
                                None => None,
                                Some((aversion, b)) => match sp_i64(b) {
                                    None => None,
                                    Some((ephemeral_owner, b)) => match sp_i32(b) {
                                        None => None,
                                        Some((data_length, b)) => match sp_i32(b) {
                                            None => None,
                                            Some((num_children, b)) => match sp_i64(b) {
                                                None => None,
                                                Some((pzxid, b)) => Some(
                                                    (
                                                        Stat {
                                                            czxid,
                                                            mzxid,
                                                            ctime,
                                                            mtime,
                                                            version,
                                                            cversion,
                                                            aversion,
                                                            ephemeral_owner,
                                                            data_length,
                                                            num_children,
                                                            pzxid,
                                                        },
                                                        b,
                                                    ),
                                                ),
                                            },
                                        },
                                    },
                                },
                            },
                        },
                    },
                },
            },
        },
    }
}

/// A value that knows how to read itself from the front of a byte
/// buffer, one field at a time.
pub trait ReadFrom: Sized {
    /// The reading this type performs, at the spec level.
    spec fn spec_read_from(b: Seq<u8>) -> Option<(Self, Seq<u8>)>;

    /// Consume this value's fields from `read`.
    fn read_from(read: &mut ByteReader) -> (r: Result<Self, DecodeError>)
        requires
            old(read).wf(),
        ensures
            final(read).wf(),
            match Self::spec_read_from(old(read).remaining()) {
                Some(p) => (r matches Ok(v) && v == p.0) && final(read).remaining() == p.1,
                None => r == Err::<Self, DecodeError>(DecodeError::ShortInput),
            },
    ;
}

impl ReadFrom for Stat {
    open spec fn spec_read_from(b: Seq<u8>) -> Option<(Stat, Seq<u8>)> {
        sp_stat(b)
    }

    fn read_from(read: &mut ByteReader) -> (r: Result<Stat, DecodeError>) {
        let czxid = match read.read_i64_be() {
            Ok(v) => v,
            Err(e) => { return Err(e) },
        };
        let mzxid = match read.read_i64_be() {
            Ok(v) => v,
            Err(e) => { return Err(e) },
        };
        let ctime = match read.read_i64_be() {
            Ok(v) => v,
            Err(e) => { return Err(e) },
        };
        let mtime = match read.read_i64_be() {
            Ok(v) => v,
            Err(e) => { return Err(e) },
        };
        let version = match read.read_i32_be() {
            Ok(v) => v,
            Err(e) => { return Err(e) },
        };
        let cversion = match read.read_i32_be() {
            Ok(v) => v,
            Err(e) => { return Err(e) },
        };
        let aversion = match read.read_i32_be() {
            Ok(v) => v,
            Err(e) => { return Err(e) },
        };
        let ephemeral_owner = match read.read_i64_be() {
            Ok(v) => v,
            Err(e) => { return Err(e) },
        };
        let data_length = match read.read_i32_be() {
            Ok(v) => v,
            Err(e) => { return Err(e) },
        };
        let num_children = match read.read_i32_be() {
            Ok(v) => v,
            Err(e) => { return Err(e) },
        };
        let pzxid = match read.read_i64_be() {
            Ok(v) => v,
            Err(e) => { return Err(e) },
        };
        Ok(
            Stat {
                czxid,
                mzxid,
                ctime,
                mtime,
                version,
                cversion,
                aversion,
                ephemeral_owner,
                data_length,
                num_children,
                pzxid,
            },
        )
    }
}

/// A source of length-prefixed byte fields.
pub trait BufferReader {
    /// Whether the source is in a consistent state.
    spec fn src_wf(&self) -> bool;

    /// The bytes the source has not yet consumed.
    spec fn src_remaining(&self) -> Seq<u8>;

    /// Consume one length-prefixed byte field: a 4-byte signed length,
    /// then that many raw bytes; a negative length yields an empty value.
    fn read_buffer(&mut self) -> (r: Result<Vec<u8>, DecodeError>)
        requires
            old(self).src_wf(),
        ensures
            final(self).src_wf(),
            match sp_buffer(old(self).src_remaining()) {
                Some(p) => (r matches Ok(v) && v@ == p.0) && final(self).src_remaining() == p.1,
                None => r == Err::<Vec<u8>, DecodeError>(DecodeError::ShortInput),
            },
    ;
}

impl BufferReader for ByteReader {
    open spec fn src_wf(&self) -> bool {
        self.wf()
    }

    open spec fn src_remaining(&self) -> Seq<u8> {
        self.remaining()
    }

    fn read_buffer(&mut self) -> (r: Result<Vec<u8>, DecodeError>) {
        let n = match self.read_i32_be() {
            Ok(v) => v,
            Err(e) => { return Err(e) },
        };
        if n < 0 {
            let out: Vec<u8> = Vec::new();
            assert(out@ =~= Seq::<u8>::empty());
            return Ok(out);
        }
        match self.read_bytes(n as usize) {
            Ok(v) => Ok(v),
            Err(e) => Err(e),
        }
    }
}

/// Relies on `String::from_utf8`: it succeeds exactly on valid UTF-8
/// input, and the returned string then holds that input's decoding.
#[verifier::external_body]
fn bytes_to_string(bytes: Vec<u8>) -> (r: Option<String>)
    ensures
        r is Some <==> valid_utf8(bytes@),
        r matches Some(s) ==> s@ == decode_utf8(bytes@),
{
    String::from_utf8(bytes).ok()
}

/// A source of length-prefixed UTF-8 string fields.
pub trait StringReader {
    /// Whether the source is in a consistent state.
    spec fn str_src_wf(&self) -> bool;

    /// The bytes the source has not yet consumed.
    spec fn str_src_remaining(&self) -> Seq<u8>;

    /// Consume one length-prefixed byte field and require it to be valid
    /// UTF-8; bytes that are not are a decode failure, not a silent
    /// replacement.
    fn read_string(&mut self) -> (r: Result<String, DecodeError>)
        requires
            old(self).str_src_wf(),
        ensures
            final(self).str_src_wf(),
            match sp_buffer(old(self).str_src_remaining()) {
                Some(p) => final(self).str_src_remaining() == p.1 && (if valid_utf8(p.0) {
                    r matches Ok(s) && s@ == decode_utf8(p.0)
                } else {
                    r == Err::<String, DecodeError>(DecodeError::BadUtf8)
                }),
                None => r == Err::<String, DecodeError>(DecodeError::ShortInput),
            },
    ;
}

impl StringReader for ByteReader {
    open spec fn str_src_wf(&self) -> bool {
        self.wf()
    }

    open spec fn str_src_remaining(&self) -> Seq<u8> {
        self.remaining()
    }

    fn read_string(&mut self) -> (r: Result<String, DecodeError>) {
        let raw = match self.read_buffer() {
            Ok(v) => v,
            Err(e) => { return Err(e) },
        };
        match bytes_to_string(raw) {
            Some(s) => Ok(s),
            None => Err(DecodeError::BadUtf8),
        }
    }
}

/// A typed response, mirroring the operations that can complete.
#[derive(Debug, PartialEq, Eq)]
pub enum Response {
    /// The handshake reply: the negotiated session parameters.
    Connect {
        protocol_version: i32,
        timeout: i32,
        session_id: i64,
        passwd: Vec<u8>,
        read_only: bool,
    },
    /// The metadata of an existing node.
    Exists { stat: Stat },
}

/// The mathematical image of a [`Response`], with byte fields as
/// sequences. Spec-level decoding produces values of this type.
pub enum ResponseModel {
    Connect {
        protocol_version: i32,
        timeout: i32,
        session_id: i64,
        passwd: Seq<u8>,
        read_only: bool,
    },
    Exists { stat: Stat },
}

impl View for Response {
    type V = ResponseModel;

    open spec fn view(&self) -> ResponseModel {
        match self {
            Response::Connect { protocol_version, timeout, session_id, passwd, read_only } => (
            ResponseModel::Connect {
                protocol_version: *protocol_version,
                timeout: *timeout,
                session_id: *session_id,
                passwd: passwd@,
                read_only: *read_only,
            }),
            Response::Exists { stat } => (ResponseModel::Exists { stat: *stat }),
        }
    }
}

impl ResponseModel {
    /// The operation kind whose reply this is.
    pub open spec fn spec_opcode(self) -> OpCode {
        match self {
            ResponseModel::Connect { .. } => OpCode::CreateSession,
            ResponseModel::Exists { .. } => OpCode::Exists,
        }
    }

    /// Byte fields small enough for their length prefix.
    pub open spec fn wf(self) -> bool {
        match self {
            ResponseModel::Connect { passwd, .. } => passwd.len() <= 0x7fff_ffff,
            ResponseModel::Exists { .. } => true,
        }
    }
}

/// Reading a handshake reply body from the front of a byte sequence.
pub open spec fn sp_connect_resp(b: Seq<u8>) -> Option<(ResponseModel, Seq<u8>)> {
    match sp_i32(b) {
        None => None,
        Some((protocol_version, b)) => match sp_i32(b) {
            None => None,
            Some((timeout, b)) => match sp_i64(b) {
                None => None,
                Some((session_id, b)) => match sp_buffer(b) {
                    None => None,
                    Some((passwd, b)) => match sp_bool(b) {
                        None => None,
                        Some((read_only, b)) => Some(
                            (
                                ResponseModel::Connect {
                                    protocol_version,
                                    timeout,
                                    session_id,
                                    passwd,
                                    read_only,
                                },
                                b,
                            ),
                        ),
                    },
                },
            },
        },
    }
}

/// What decoding one frame payload yields for the given operation kind:
/// a response, a domain-level server error for the caller, or a decode
/// failure that is fatal to the connection.
pub open spec fn spec_decode(op: OpCode, b: Seq<u8>) -> Result<
    Result<ResponseModel, ZkError>,
    DecodeError,
> {
    match op {
        OpCode::CreateSession => match sp_connect_resp(b) {
            None => Err(DecodeError::ShortInput),
            Some((m, rest)) => if rest.len() == 0 {
                Ok(Ok(m))
            } else {
                Err(DecodeError::TrailingBytes)
            },
        },
        OpCode::Exists => match sp_i32(b) {
            None => Err(DecodeError::ShortInput),
            Some((code, rest)) => if code == 0 {
                match sp_stat(rest) {
                    None => Err(DecodeError::ShortInput),
                    Some((stat, rest2)) => if rest2.len() == 0 {
                        Ok(Ok(ResponseModel::Exists { stat }))
                    } else {
                        Err(DecodeError::TrailingBytes)
                    },
                }
            } else if rest.len() == 0 {
                Ok(Err(spec_zk_error_of(code)))
            } else {
                Err(DecodeError::TrailingBytes)
            },
        },
        _ => Err(DecodeError::UnsupportedOp),
    }
}

/// Wire image of a response: the frame payload that decodes back to it.
/// For the positional handshake reply this is the body itself; for an
/// id-tagged reply the zero result code comes first.
pub open spec fn spec_encode_response(m: ResponseModel) -> Seq<u8> {
    match m {
        ResponseModel::Connect { protocol_version, timeout, session_id, passwd, read_only } => enc_i32(
            protocol_version,
        ) + enc_i32(timeout) + enc_i64(session_id) + enc_buffer(passwd) + enc_bool(read_only),
        ResponseModel::Exists { stat } => enc_i32(0) + enc_stat(stat),
    }
}

/// Reading a `Stat` back from its own wire image, whatever follows it,
/// yields the same record and leaves exactly the trailing bytes.
#[verifier::rlimit(50)]
pub proof fn lemma_sp_stat_round(s: Stat, rest: Seq<u8>)
    ensures
        sp_stat(enc_stat(s) + rest) == Some((s, rest)),
{
    let e1 = enc_i64(s.czxid);
    let e2 = enc_i64(s.mzxid);
    let e3 = enc_i64(s.ctime);
    let e4 = enc_i64(s.mtime);
    let e5 = enc_i32(s.version);
    let e6 = enc_i32(s.cversion);
    let e7 = enc_i32(s.aversion);
    let e8 = enc_i64(s.ephemeral_owner);
    let e9 = enc_i32(s.data_length);
    let e10 = enc_i32(s.num_children);
    let e11 = enc_i64(s.pzxid);
    let p2 = e1 + e2;
    let p3 = p2 + e3;
    let p4 = p3 + e4;
    let p5 = p4 + e5;
    let p6 = p5 + e6;
    let p7 = p6 + e7;
    let p8 = p7 + e8;
    let p9 = p8 + e9;
    let p10 = p9 + e10;
    let t10 = e11 + rest;
    let t9 = e10 + t10;
    let t8 = e9 + t9;
    let t7 = e8 + t8;
    let t6 = e7 + t7;
    let t5 = e6 + t6;
    let t4 = e5 + t5;
    let t3 = e4 + t4;
    let t2 = e3 + t3;
    let t1 = e2 + t2;
    lemma_concat_associative(p10, e11, rest);
    lemma_concat_associative(p9, e10, t10);
    lemma_concat_associative(p8, e9, t9);
    lemma_concat_associative(p7, e8, t8);
    lemma_concat_associative(p6, e7, t7);
    lemma_concat_associative(p5, e6, t6);
    lemma_concat_associative(p4, e5, t5);
    lemma_concat_associative(p3, e4, t4);
    lemma_concat_associative(p2, e3, t3);
    assert(enc_stat(s) + rest == e1 + t1);
    crate::wire::lemma_sp_i64_round(s.czxid, t1);
    crate::wire::lemma_sp_i64_round(s.mzxid, t2);
    crate::wire::lemma_sp_i64_round(s.ctime, t3);
    crate::wire::lemma_sp_i64_round(s.mtime, t4);
    crate::wire::lemma_sp_i32_round(s.version, t5);
    crate::wire::lemma_sp_i32_round(s.cversion, t6);
    crate::wire::lemma_sp_i32_round(s.aversion, t7);
    crate::wire::lemma_sp_i64_round(s.ephemeral_owner, t8);
    crate::wire::lemma_sp_i32_round(s.data_length, t9);
    crate::wire::lemma_sp_i32_round(s.num_children, t10);
    crate::wire::lemma_sp_i64_round(s.pzxid, rest);
}

/// Round trip: decoding a response's own wire image, against the
/// operation kind the response answers, yields exactly that response —
/// for every supported operation and every well-formed field value,
/// including empty and maximal byte fields.
#[verifier::rlimit(100)]
pub proof fn lemma_response_round_trip(m: ResponseModel)
    requires
        m.wf(),
    ensures
        spec_decode(m.spec_opcode(), spec_encode_response(m)) == Ok::<
            Result<ResponseModel, ZkError>,
            DecodeError,
        >(Ok::<ResponseModel, ZkError>(m)),
{
    match m {
        ResponseModel::Connect { protocol_version, timeout, session_id, passwd, read_only } => {
            let e1 = enc_i32(protocol_version);
            let e2 = enc_i32(timeout);
            let e3 = enc_i64(session_id);
            let e4 = enc_buffer(passwd);
            let e5 = enc_bool(read_only);
            let p2 = e1 + e2;
            let p3 = p2 + e3;
            let p4 = p3 + e4;
            let t4 = e5;
            let t3 = e4 + t4;
            let t2 = e3 + t3;
            let t1 = e2 + t2;
            lemma_concat_associative(p3, e4, e5);
            lemma_concat_associative(p2, e3, t3);
            lemma_concat_associative(e1, e2, t2);
            assert(spec_encode_response(m) == e1 + t1);
            crate::wire::lemma_sp_i32_round(protocol_version, t1);
            crate::wire::lemma_sp_i32_round(timeout, t2);
            crate::wire::lemma_sp_i64_round(session_id, t3);
            crate::wire::lemma_sp_buffer_round(passwd, t4);
            crate::wire::lemma_sp_bool_round(read_only, Seq::<u8>::empty());
            crate::wire::lemma_concat_empty(enc_bool(read_only));
        },
        ResponseModel::Exists { stat } => {
            crate::wire::lemma_sp_i32_round(0, enc_stat(stat));
            lemma_sp_stat_round(stat, Seq::<u8>::empty());
            crate::wire::lemma_concat_empty(enc_stat(stat));
        },
    }
}

/// Round trip for domain errors: a reply payload holding one nonzero
/// result code decodes, for an id-tagged operation, to exactly that
/// server error for the one caller — never to a connection failure.
pub proof fn lemma_error_reply_round_trip(e: ZkError)
    requires
        e.wf(),
    ensures
        spec_decode(OpCode::Exists, enc_i32(e.spec_code())) == Ok::<
            Result<ResponseModel, ZkError>,
            DecodeError,
        >(Err::<ResponseModel, ZkError>(e)),
{
    crate::wire::lemma_sp_i32_round(e.spec_code(), Seq::<u8>::empty());
    crate::wire::lemma_concat_empty(enc_i32(e.spec_code()));
}

/// The mathematical image of a delivered reply.
pub open spec fn reply_view(r: Result<Response, ZkError>) -> Result<ResponseModel, ZkError> {
    match r {
        Ok(resp) => Ok(resp@),
        Err(e) => Err(e),
    }
}

/// The mathematical image of a decoder result.
pub open spec fn parse_view(r: Result<Result<Response, ZkError>, DecodeError>) -> Result<
    Result<ResponseModel, ZkError>,
    DecodeError,
> {
    match r {
        Ok(Ok(resp)) => Ok(Ok(resp@)),
        Ok(Err(e)) => Ok(Err(e)),
        Err(d) => Err(d),
    }
}

impl Response {
    /// The wire image of this response, as a frame payload. Useful to a
    /// server side and to exercising the decoder against known bytes.
    pub fn encode_payload(&self) -> (out: Vec<u8>)
        requires
            self@.wf(),
        ensures
            out@ == spec_encode_response(self@),
    {
        let mut out: Vec<u8> = Vec::new();
        match self {
            Response::Connect { protocol_version, timeout, session_id, passwd, read_only } => {
                crate::wire::write_i32_be(&mut out, *protocol_version);
                crate::wire::write_i32_be(&mut out, *timeout);
                crate::wire::write_i64_be(&mut out, *session_id);
                crate::wire::write_buffer(&mut out, passwd.as_slice());
                crate::wire::write_bool(&mut out, *read_only);
                assert(out@ =~= spec_encode_response(self@));
            },
            Response::Exists { stat } => {
                crate::wire::write_i32_be(&mut out, 0);
                crate::wire::write_i64_be(&mut out, stat.czxid);
                crate::wire::write_i64_be(&mut out, stat.mzxid);
                crate::wire::write_i64_be(&mut out, stat.ctime);
                crate::wire::write_i64_be(&mut out, stat.mtime);
                crate::wire::write_i32_be(&mut out, stat.version);
                crate::wire::write_i32_be(&mut out, stat.cversion);
                crate::wire::write_i32_be(&mut out, stat.aversion);
                crate::wire::write_i64_be(&mut out, stat.ephemeral_owner);
                crate::wire::write_i32_be(&mut out, stat.data_length);
                crate::wire::write_i32_be(&mut out, stat.num_children);
                crate::wire::write_i64_be(&mut out, stat.pzxid);
                assert(out@ =~= spec_encode_response(self@));
            },
        }
        out
    }

    /// Decode one frame payload against the operation kind recorded for
    /// its correlation id. Consumes exactly the payload: bytes beyond
    /// the response's fields are a decode failure.
    pub fn parse(opcode: OpCode, buf: Vec<u8>) -> (r: Result<
        Result<Response, ZkError>,
        DecodeError,
    >)
        ensures
            parse_view(r) == spec_decode(opcode, buf@),
    {
        let mut reader = ByteReader::new(buf);
        match opcode {
            OpCode::CreateSession => {
                let protocol_version = match reader.read_i32_be() {
                    Ok(v) => v,
                    Err(e) => { return Err(e) },
                };
                let timeout = match reader.read_i32_be() {
                    Ok(v) => v,
                    Err(e) => { return Err(e) },
                };
                let session_id = match reader.read_i64_be() {
                    Ok(v) => v,
                    Err(e) => { return Err(e) },
                };
                let passwd = match reader.read_buffer() {
                    Ok(v) => v,
                    Err(e) => { return Err(e) },
                };
                let read_only = match reader.read_bool() {
                    Ok(v) => v,
                    Err(e) => { return Err(e) },
                };
                if !reader.at_end() {
                    return Err(DecodeError::TrailingBytes);
                }
                Ok(
                    Ok(
                        Response::Connect {
                            protocol_version,
                            timeout,
                            session_id,
                            passwd,
                            read_only,
                        },
                    ),
                )
            },
            OpCode::Exists => {
                let code = match reader.read_i32_be() {
                    Ok(v) => v,
                    Err(e) => { return Err(e) },
                };
                if code != 0 {
                    if !reader.at_end() {
                        return Err(DecodeError::TrailingBytes);
                    }
                    return Ok(Err(zk_error_of(code)));
                }
                let stat = match Stat::read_from(&mut reader) {
                    Ok(v) => v,
                    Err(e) => { return Err(e) },
                };
                if !reader.at_end() {
                    return Err(DecodeError::TrailingBytes);
                }
                Ok(Ok(Response::Exists { stat }))
            },
            _ => Err(DecodeError::UnsupportedOp),
        }
    }
}

} // verus!
