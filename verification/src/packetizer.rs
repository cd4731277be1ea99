//! The packetizer: the stateful engine of the protocol.
//!
//! It owns the outbound and inbound byte buffers and the correlation
//! table, frames submitted requests, reassembles inbound bytes into
//! complete frames despite arbitrary fragmentation, decodes each frame
//! against the operation recorded for its correlation id, and special-
//! cases the positional handshake reply.
//!
//! The transport itself stays outside: a driving loop hands written-byte
//! counts and read chunks to this type and delivers what
//! [`Packetizer::try_consume_frame`] dispatches. All state here is owned
//! by that single driving task, so no locking is involved.

use vstd::prelude::*;

use vstd::seq_lib::lemma_concat_associative;

use crate::error::{DecodeError, Error, ZkError};
use crate::request::{OpCode, Request};
use crate::response::{reply_view, spec_decode, Response};
use crate::table::CorrelationTable;
use crate::wire::{be4_to_u32, enc_i32, i32_from_u32, i32_of_u32, u32_of_be4, write_i32_be};

verus! {

/// What one complete inbound frame dispatched to.
#[derive(Debug, PartialEq, Eq)]
pub enum Dispatched {
    /// The positional handshake reply; it carries no correlation id.
    HandshakeReply(Response),
    /// The reply to the request submitted under `xid`: its typed
    /// response, or the domain error the server answered instead.
    Reply { xid: i32, reply: Result<Response, ZkError> },
}

/// The packetizer's lifecycle.
#[derive(Clone, Copy, Debug, PartialEq, Eq, Structural)]
pub enum PollState {
    /// Normal operation: new requests may still arrive.
    Active,
    /// The submission side has shut down; queued bytes and outstanding
    /// replies are still serviced.
    Draining,
    /// Draining finished with nothing buffered and nothing outstanding.
    Terminated,
}

/// The frame length a buffer's first four bytes declare.
pub open spec fn frame_declared(v: Seq<u8>) -> i32
    recommends
        v.len() >= 4,
{
    i32_from_u32(u32_of_be4(v[0], v[1], v[2], v[3]))
}

/// The correlation id an id-tagged frame carries, right after the length.
pub open spec fn frame_xid(v: Seq<u8>) -> i32
    recommends
        v.len() >= 8,
{
    frame_declared(v.skip(4))
}

/// The bytes one whole frame occupies: the length prefix, the
/// correlation id for non-positional requests, then the payload.
pub open spec fn spec_frame(xid: Option<i32>, payload: Seq<u8>) -> Seq<u8>
    recommends
        payload.len() + (if xid is Some {
            4int
        } else {
            0int
        }) <= 0x7fff_ffff,
{
    match xid {
        None => enc_i32(payload.len() as i32) + payload,
        Some(x) => enc_i32((payload.len() + 4) as i32) + enc_i32(x) + payload,
    }
}

/// `post` is `pre` with `chunk` appended to the inbound bytes and all
/// else untouched: the relation [`Packetizer::feed`] establishes.
pub open spec fn fed(pre: Packetizer, post: Packetizer, chunk: Seq<u8>) -> bool {
    &&& post.in_view() == pre.in_view() + chunk
    &&& post.out_view() == pre.out_view()
    &&& post.table() == pre.table()
    &&& post.next_xid() == pre.next_xid()
    &&& post.sent_handshake() == pre.sent_handshake()
    &&& post.awaiting_handshake() == pre.awaiting_handshake()
    &&& post.draining() == pre.draining()
}

/// A submission was granted `id`: the id was the next to issue, it was
/// not outstanding, and it is recorded now; the next id moved past it.
pub open spec fn submit_granted(pre: Packetizer, post: Packetizer, id: i32) -> bool {
    &&& id == pre.next_xid()
    &&& post.next_xid() == pre.next_xid() + 1
    &&& !pre.table().contains_key(id)
    &&& exists|op: OpCode| post.table() == #[trigger] pre.table().insert(id, op)
}

/// `post` is `pre` with the first `n` inbound bytes consumed and all
/// outbound state untouched.
pub open spec fn advanced_by(pre: Packetizer, post: Packetizer, n: int) -> bool {
    &&& post.in_view() == pre.in_view().skip(n)
    &&& post.out_view() == pre.out_view()
    &&& post.next_xid() == pre.next_xid()
    &&& post.sent_handshake() == pre.sent_handshake()
    &&& post.draining() == pre.draining()
}

/// What one call of [`Packetizer::try_consume_frame`] does, given the
/// inbound bytes and the table of `pre`: too few bytes for a whole frame
/// change nothing and dispatch nothing; an impossible declared length,
/// an unissued correlation id, or an undecodable payload is a fatal
/// error with the state untouched; a complete well-formed frame is
/// consumed and dispatched — positionally while the handshake reply is
/// awaited, by table lookup and removal otherwise.
pub open spec fn consume_step(
    pre: Packetizer,
    post: Packetizer,
    r: Result<Option<Dispatched>, Error>,
) -> bool {
    let v = pre.in_view();
    if v.len() < 4 {
        r == Ok::<Option<Dispatched>, Error>(None::<Dispatched>) && post == pre
    } else {
        let declared = frame_declared(v);
        if declared < 0 || (!pre.awaiting_handshake() && declared < 4) {
            r == Err::<Option<Dispatched>, Error>(Error::BadFrameLength(declared)) && post == pre
        } else if v.len() < 4 + declared {
            r == Ok::<Option<Dispatched>, Error>(None::<Dispatched>) && post == pre
        } else if pre.awaiting_handshake() {
            match spec_decode(OpCode::CreateSession, v.subrange(4, 4 + (declared as int))) {
                Err(d) => r == Err::<Option<Dispatched>, Error>(Error::Malformed(d)) && post == pre,
                Ok(Ok(m)) => {
                    &&& r matches Ok(Some(Dispatched::HandshakeReply(resp))) && resp@ == m
                    &&& advanced_by(pre, post, 4 + (declared as int))
                    &&& !post.awaiting_handshake()
                    &&& post.table() == pre.table()
                },
                Ok(Err(_)) => false,
            }
        } else {
            let x = frame_xid(v);
            if !pre.table().contains_key(x) {
                r == Err::<Option<Dispatched>, Error>(Error::UnknownId(x)) && post == pre
            } else {
                match spec_decode(pre.table()[x], v.subrange(8, 4 + (declared as int))) {
                    Err(d) => r == Err::<Option<Dispatched>, Error>(Error::Malformed(d)) && post
                        == pre,
                    Ok(rep) => {
                        &&& r matches Ok(Some(Dispatched::Reply { xid, reply })) && xid == x
                            && reply_view(reply) == rep
                        &&& advanced_by(pre, post, 4 + (declared as int))
                        &&& post.awaiting_handshake() == pre.awaiting_handshake()
                        &&& post.table() == pre.table().remove(x)
                    },
                }
            }
        }
    }
}

/// Id uniqueness: two granted submissions in a row get distinct
/// correlation ids, neither id was outstanding when granted, and both
/// are outstanding afterwards. An entry leaves the table only through
/// [`Packetizer::try_consume_frame`], which removes exactly the id of
/// the frame it dispatches and dispatches each frame once — see
/// [`consume_step`] — so no entry is removed before its response
/// arrives, and none is removed twice.
pub proof fn lemma_id_uniqueness(
    p0: Packetizer,
    p1: Packetizer,
    p2: Packetizer,
    id1: i32,
    id2: i32,
)
    requires
        submit_granted(p0, p1, id1),
        submit_granted(p1, p2, id2),
    ensures
        id1 != id2,
        !p0.table().contains_key(id1),
        !p1.table().contains_key(id2),
        p2.table().contains_key(id1),
        p2.table().contains_key(id2),
{
    let op1 = choose|op: OpCode| p1.table() == p0.table().insert(id1, op);
    let op2 = choose|op: OpCode| p2.table() == p1.table().insert(id2, op);
    assert(p1.table().contains_key(id1));
    assert(p2.table().contains_key(id1));
}

/// Fragmentation tolerance: delivering a byte sequence in two fragments
/// leaves the assembler in exactly the state that delivering it whole
/// does, wherever the cut falls. [`lemma_fragmentation_chain`] extends
/// this to any number of fragments; what a frame dispatches depends
/// only on the resulting state, per [`consume_step`].
pub proof fn lemma_fragmentation_tolerance(
    p0: Packetizer,
    p1: Packetizer,
    p2: Packetizer,
    q1: Packetizer,
    bytes: Seq<u8>,
    cut: int,
)
    requires
        0 <= cut <= bytes.len(),
        fed(p0, p1, bytes.subrange(0, cut)),
        fed(p1, p2, bytes.subrange(cut, bytes.len() as int)),
        fed(p0, q1, bytes),
    ensures
        p2.in_view() == q1.in_view(),
        p2.out_view() == q1.out_view(),
        p2.table() == q1.table(),
        p2.next_xid() == q1.next_xid(),
        p2.sent_handshake() == q1.sent_handshake(),
        p2.awaiting_handshake() == q1.awaiting_handshake(),
        p2.draining() == q1.draining(),
{
    assert(bytes.subrange(0, cut) + bytes.subrange(cut, bytes.len() as int) =~= bytes);
    assert(p2.in_view() =~= q1.in_view());
}

/// Fragmentation tolerance in full: feeding any number of fragments one
/// after another — down to a single byte each — is one feed of their
/// concatenation. `states` walks the assembler through the fragments;
/// the end state is related to the start exactly as if the bytes had
/// arrived whole.
pub proof fn lemma_fragmentation_chain(states: Seq<Packetizer>, chunks: Seq<Seq<u8>>)
    requires
        states.len() == chunks.len() + 1,
        forall|i: int| 0 <= i < chunks.len() ==> fed(states[i], states[i + 1], #[trigger] chunks[i]),
    ensures
        fed(states[0], states[states.len() - 1], chunks.flatten()),
    decreases chunks.len(),
{
    if chunks.len() == 0 {
        assert(chunks.flatten() == Seq::<u8>::empty());
        crate::wire::lemma_concat_empty(states[0].in_view());
    } else {
        let tail_states = states.skip(1);
        let tail_chunks = chunks.skip(1);
        assert forall|i: int| 0 <= i < tail_chunks.len() implies fed(
            tail_states[i],
            tail_states[i + 1],
            #[trigger] tail_chunks[i],
        ) by {
            assert(tail_states[i] == states[i + 1]);
            assert(tail_states[i + 1] == states[i + 2]);
            assert(tail_chunks[i] == chunks[i + 1]);
        }
        lemma_fragmentation_chain(tail_states, tail_chunks);
        assert(tail_states[tail_states.len() - 1] == states[states.len() - 1]);
        assert(fed(states[1], states[states.len() - 1], tail_chunks.flatten()));
        assert(fed(states[0], states[1], chunks[0]));
        lemma_concat_associative(states[0].in_view(), chunks[0], tail_chunks.flatten());
        assert(chunks.flatten() == chunks[0] + tail_chunks.flatten()) by {
            assert(chunks.first() == chunks[0]);
            assert(chunks.drop_first() == tail_chunks);
        }
    }
}

/// A copy of `v[from..to]`.
fn copy_range(v: &Vec<u8>, from: usize, to: usize) -> (out: Vec<u8>)
    requires
        from <= to <= v@.len(),
    ensures
        out@ == v@.subrange(from as int, to as int),
{
    let mut out: Vec<u8> = Vec::new();
    let mut i: usize = from;
    while i < to
        invariant
            from <= i <= to <= v@.len(),
            out@ =~= v@.subrange(from as int, i as int),
        decreases to - i,
    {
        out.push(v[i]);
        i = i + 1;
    }
    proof {
        assert(out@ =~= v@.subrange(from as int, to as int));
    }
    out
}

/// The stateful protocol engine. All fields are reachable only through
/// the verified methods; the driving loop outside owns exactly one.
pub struct Packetizer {
    /// Outbound bytes not yet handed to the transport, from `outstart`.
    outbox: Vec<u8>,
    /// Prefix of `outbox` the transport has accepted.
    outstart: usize,
    /// Inbound bytes not yet carved into frames, from `instart`.
    inbox: Vec<u8>,
    /// Prefix of `inbox` already consumed as frames.
    instart: usize,
    /// Next correlation id to issue.
    xid: i32,
    /// Outstanding requests: id to the operation sent under it.
    reply: CorrelationTable,
    /// Whether the handshake request has been framed.
    handshake_sent: bool,
    /// Whether the handshake reply is still awaited; the first inbound
    /// frame is then recognized positionally, with no table lookup.
    handshake_pending: bool,
    /// Whether the submission side has shut down.
    exiting: bool,
}

impl Packetizer {
    /// Internal consistency: cursors within bounds and reset to the
    /// origin when they catch up, distinct table ids all below the next
    /// id to issue, and a pending handshake only once one was sent.
    pub closed spec fn wf(&self) -> bool {
        &&& self.outstart <= self.outbox@.len()
        &&& self.instart <= self.inbox@.len()
        &&& (self.outstart == self.outbox@.len() ==> self.outstart == 0)
        &&& (self.instart == self.inbox@.len() ==> self.instart == 0)
        &&& self.reply.wf()
        &&& self.xid >= 1
        &&& (forall|k: i32| #[trigger] self.reply@.contains_key(k) ==> 1 <= k < self.xid)
        &&& (self.handshake_pending ==> self.handshake_sent)
    }

    /// Outbound bytes not yet written to the transport.
    pub closed spec fn out_view(&self) -> Seq<u8> {
        self.outbox@.skip(self.outstart as int)
    }

    /// Inbound bytes not yet carved into frames.
    pub closed spec fn in_view(&self) -> Seq<u8> {
        self.inbox@.skip(self.instart as int)
    }

    /// The correlation table's mapping.
    pub closed spec fn table(&self) -> Map<i32, OpCode> {
        self.reply@
    }

    /// The next correlation id to issue.
    pub closed spec fn next_xid(&self) -> i32 {
        self.xid
    }

    pub closed spec fn sent_handshake(&self) -> bool {
        self.handshake_sent
    }

    pub closed spec fn awaiting_handshake(&self) -> bool {
        self.handshake_pending
    }

    pub closed spec fn draining(&self) -> bool {
        self.exiting
    }

    /// Where the engine stands in its lifecycle.
    pub open spec fn spec_state(&self) -> PollState {
        if !self.draining() {
            PollState::Active
        } else if self.out_view().len() == 0 && self.in_view().len() == 0 && self.table()
            == Map::<i32, OpCode>::empty() && !self.awaiting_handshake() {
            PollState::Terminated
        } else {
            PollState::Draining
        }
    }

    /// A fresh engine for a fresh connection: empty buffers, empty
    /// table, the id origin, no handshake yet.
    pub fn new() -> (p: Packetizer)
        ensures
            p.wf(),
            p.out_view() == Seq::<u8>::empty(),
            p.in_view() == Seq::<u8>::empty(),
            p.table() == Map::<i32, OpCode>::empty(),
            p.next_xid() == 1,
            !p.sent_handshake(),
            !p.awaiting_handshake(),
            !p.draining(),
    {
        let p = Packetizer {
            outbox: Vec::new(),
            outstart: 0,
            inbox: Vec::new(),
            instart: 0,
            xid: 1,
            reply: CorrelationTable::new(),
            handshake_sent: false,
            handshake_pending: false,
            exiting: false,
        };
        proof {
            assert(p.out_view() =~= Seq::<u8>::empty());
            assert(p.in_view() =~= Seq::<u8>::empty());
        }
        p
    }

    /// How many outbound bytes wait for the transport.
    pub fn outlen(&self) -> (n: usize)
        requires
            self.wf(),
        ensures
            n == self.out_view().len(),
    {
        self.outbox.len() - self.outstart
    }

    /// How many inbound bytes wait to be carved into frames.
    pub fn inlen(&self) -> (n: usize)
        requires
            self.wf(),
        ensures
            n == self.in_view().len(),
    {
        self.inbox.len() - self.instart
    }

    pub fn has_sent_handshake(&self) -> (b: bool)
        ensures
            b == self.sent_handshake(),
    {
        self.handshake_sent
    }

    pub fn is_awaiting_handshake(&self) -> (b: bool)
        ensures
            b == self.awaiting_handshake(),
    {
        self.handshake_pending
    }

    pub fn is_draining(&self) -> (b: bool)
        ensures
            b == self.draining(),
    {
        self.exiting
    }

    /// The submission side has shut down: no request will ever arrive
    /// again, but queued bytes and outstanding replies are still owed.
    pub fn set_draining(&mut self)
        requires
            old(self).wf(),
        ensures
            final(self).wf(),
            final(self).draining(),
            final(self).out_view() == old(self).out_view(),
            final(self).in_view() == old(self).in_view(),
            final(self).table() == old(self).table(),
            final(self).next_xid() == old(self).next_xid(),
            final(self).sent_handshake() == old(self).sent_handshake(),
            final(self).awaiting_handshake() == old(self).awaiting_handshake(),
    {
        self.exiting = true;
    }

    /// Frame one submitted request into the outbound buffer.
    ///
    /// A positional request is framed without a correlation id and the
    /// engine then awaits its reply positionally. Every other request is
    /// granted the next id, recorded in the table before its bytes are
    /// complete, and framed under that id. Submission fails only on a
    /// request too large for the frame length field, or once the id
    /// space is exhausted — wrapping into a possibly-live id would be a
    /// correlation error.
    pub fn start_send(&mut self, item: Request) -> (r: Result<Option<i32>, Error>)
        requires
            old(self).wf(),
            !old(self).draining(),
            item.is_positional() <==> !old(self).sent_handshake(),
        ensures
            final(self).wf(),
            !final(self).draining(),
            final(self).in_view() == old(self).in_view(),
            r is Ok <==> (item.spec_fits() && (item.is_positional() || old(self).next_xid()
                < 0x7fff_ffff)),
            match r {
                Ok(assigned) => if item.is_positional() {
                    &&& assigned is None
                    &&& final(self).out_view() == old(self).out_view() + spec_frame(
                        None,
                        item.spec_payload(),
                    )
                    &&& final(self).table() == old(self).table()
                    &&& final(self).next_xid() == old(self).next_xid()
                    &&& final(self).sent_handshake()
                    &&& final(self).awaiting_handshake()
                } else {
                    &&& assigned matches Some(id) && {
                        &&& id == old(self).next_xid()
                        &&& !old(self).table().contains_key(id)
                        &&& final(self).next_xid() == old(self).next_xid() + 1
                        &&& final(self).table() == old(self).table().insert(
                            id,
                            item.spec_opcode(),
                        )
                        &&& final(self).out_view() == old(self).out_view() + spec_frame(
                            Some(id),
                            item.spec_payload(),
                        )
                        &&& submit_granted(*old(self), *final(self), id)
                    }
                    &&& final(self).sent_handshake() == old(self).sent_handshake()
                    &&& final(self).awaiting_handshake() == old(self).awaiting_handshake()
                },
                Err(e) => *final(self) == *old(self) && ((e == Error::FrameTooLarge
                    && !item.spec_fits()) || (e == Error::IdsExhausted && item.spec_fits()
                    && !item.is_positional() && old(self).next_xid() == 0x7fff_ffff)),
            },
    {
        if !item.fits() {
            return Err(Error::FrameTooLarge);
        }
        let mut payload: Vec<u8> = Vec::new();
        if item.positional() {
            item.serialize_into(&mut payload);
            proof {
                assert(payload@ =~= item.spec_payload());
            }
            write_i32_be(&mut self.outbox, payload.len() as i32);
            self.outbox.append(&mut payload);
            self.handshake_sent = true;
            self.handshake_pending = true;
            proof {
                assert(self.out_view() =~= old(self).out_view() + spec_frame(
                    None,
                    item.spec_payload(),
                ));
                assert(self.in_view() =~= old(self).in_view());
            }
            Ok(None)
        } else {
            if self.xid == 0x7fff_ffff {
                return Err(Error::IdsExhausted);
            }
            item.serialize_into(&mut payload);
            proof {
                assert(payload@ =~= item.spec_payload());
            }
            let id = self.xid;
            self.xid = self.xid + 1;
            self.reply.insert(id, item.opcode());
            write_i32_be(&mut self.outbox, (payload.len() + 4) as i32);
            write_i32_be(&mut self.outbox, id);
            self.outbox.append(&mut payload);
            proof {
                assert(self.out_view() =~= old(self).out_view() + spec_frame(
                    Some(id),
                    item.spec_payload(),
                ));
                assert(self.in_view() =~= old(self).in_view());
                assert(self.table() == old(self).table().insert(id, item.spec_opcode()));
                assert(submit_granted(*old(self), *self, id));
            }
            Ok(Some(id))
        }
    }

    /// The transport accepted `n` outbound bytes: advance past them, and
    /// reset the buffer to its origin once everything written so far has
    /// been accepted, to bound memory growth.
    pub fn note_written(&mut self, n: usize)
        requires
            old(self).wf(),
            n <= old(self).out_view().len(),
        ensures
            final(self).wf(),
            final(self).out_view() == old(self).out_view().skip(n as int),
            final(self).in_view() == old(self).in_view(),
            final(self).table() == old(self).table(),
            final(self).next_xid() == old(self).next_xid(),
            final(self).sent_handshake() == old(self).sent_handshake(),
            final(self).awaiting_handshake() == old(self).awaiting_handshake(),
            final(self).draining() == old(self).draining(),
    {
        let total = self.outbox.len();
        proof {
            assert(old(self).out_view().len() == total - self.outstart);
        }
        self.outstart = self.outstart + n;
        if self.outstart == self.outbox.len() {
            self.outbox.clear();
            self.outstart = 0;
        }
        proof {
            assert(self.out_view() =~= old(self).out_view().skip(n as int));
            assert(self.in_view() =~= old(self).in_view());
        }
    }

    /// The transport delivered a chunk of inbound bytes, of any size —
    /// a single byte is as good as a whole frame. Append them; frames
    /// are carved out by [`Self::try_consume_frame`].
    pub fn feed(&mut self, bytes: &[u8])
        requires
            old(self).wf(),
        ensures
            final(self).wf(),
            fed(*old(self), *final(self), bytes@),
    {
        self.inbox.extend_from_slice(bytes);
        proof {
            assert(self.in_view() =~= old(self).in_view() + bytes@);
            assert(self.out_view() =~= old(self).out_view());
        }
    }

    /// A copy of the outbound bytes waiting for the transport; the
    /// driving loop writes some prefix of them and reports back through
    /// [`Self::note_written`].
    pub fn out_bytes(&self) -> (out: Vec<u8>)
        requires
            self.wf(),
        ensures
            out@ == self.out_view(),
    {
        let out = copy_range(&self.outbox, self.outstart, self.outbox.len());
        proof {
            assert(out@ =~= self.out_view());
        }
        out
    }

    /// Consume the first `n` inbound bytes, resetting the buffer to its
    /// origin once everything buffered has been consumed.
    fn advance(&mut self, n: usize)
        requires
            old(self).wf(),
            n <= old(self).in_view().len(),
        ensures
            final(self).wf(),
            final(self).in_view() == old(self).in_view().skip(n as int),
            final(self).out_view() == old(self).out_view(),
            final(self).table() == old(self).table(),
            final(self).next_xid() == old(self).next_xid(),
            final(self).sent_handshake() == old(self).sent_handshake(),
            final(self).awaiting_handshake() == old(self).awaiting_handshake(),
            final(self).draining() == old(self).draining(),
    {
        let total = self.inbox.len();
        proof {
            assert(old(self).in_view().len() == total - self.instart);
        }
        self.instart = self.instart + n;
        if self.instart == total {
            self.inbox.clear();
            self.instart = 0;
        }
        proof {
            assert(self.in_view() =~= old(self).in_view().skip(n as int));
            assert(self.out_view() =~= old(self).out_view());
        }
    }

    /// Carve at most one complete frame out of the inbound buffer and
    /// dispatch it. `Ok(None)` means more bytes are needed first; any
    /// error is fatal to the connection. See [`consume_step`] for the
    /// full account.
    #[verifier::rlimit(100)]
    pub fn try_consume_frame(&mut self) -> (r: Result<Option<Dispatched>, Error>)
        requires
            old(self).wf(),
        ensures
            final(self).wf(),
            consume_step(*old(self), *final(self), r),
    {
        let total = self.inbox.len();
        let avail = total - self.instart;
        if avail < 4 {
            return Ok(None);
        }
        let b0 = self.inbox[self.instart];
        let b1 = self.inbox[self.instart + 1];
        let b2 = self.inbox[self.instart + 2];
        let b3 = self.inbox[self.instart + 3];
        let declared = i32_of_u32(be4_to_u32(b0, b1, b2, b3));
        proof {
            let v = old(self).in_view();
            assert(v.len() == avail);
            assert(v[0] == b0 && v[1] == b1 && v[2] == b2 && v[3] == b3);
            assert(declared == frame_declared(v));
        }
        if declared < 0 {
            return Err(Error::BadFrameLength(declared));
        }
        if !self.handshake_pending && declared < 4 {
            return Err(Error::BadFrameLength(declared));
        }
        let dec = declared as usize;
        if avail - 4 < dec {
            return Ok(None);
        }
        let need = 4 + dec;
        if self.handshake_pending {
            let body = copy_range(&self.inbox, self.instart + 4, self.instart + need);
            proof {
                assert(body@ =~= old(self).in_view().subrange(4, 4 + (declared as int)));
            }
            match Response::parse(OpCode::CreateSession, body) {
                Err(d) => Err(Error::Malformed(d)),
                Ok(Ok(resp)) => {
                    self.advance(need);
                    self.handshake_pending = false;
                    Ok(Some(Dispatched::HandshakeReply(resp)))
                },
                Ok(Err(_)) => {
                    // A positional handshake reply carries no result
                    // code, so its decoder cannot yield a domain error.
                    proof {
                        assert(false);
                    }
                    Err(Error::Malformed(DecodeError::ShortInput))
                },
            }
        } else {
            let c0 = self.inbox[self.instart + 4];
            let c1 = self.inbox[self.instart + 5];
            let c2 = self.inbox[self.instart + 6];
            let c3 = self.inbox[self.instart + 7];
            let xid_val = i32_of_u32(be4_to_u32(c0, c1, c2, c3));
            proof {
                let v = old(self).in_view();
                assert(v[4] == c0 && v[5] == c1 && v[6] == c2 && v[7] == c3);
                assert(v.skip(4)[0] == c0 && v.skip(4)[1] == c1 && v.skip(4)[2] == c2 && v.skip(4)[3]
                    == c3);
                assert(xid_val == frame_xid(v));
            }
            let op = match self.reply.get(xid_val) {
                Some(op) => op,
                None => { return Err(Error::UnknownId(xid_val)) },
            };
            let body = copy_range(&self.inbox, self.instart + 8, self.instart + need);
            proof {
                assert(body@ =~= old(self).in_view().subrange(8, 4 + (declared as int)));
            }
            match Response::parse(op, body) {
                Err(d) => Err(Error::Malformed(d)),
                Ok(rep) => {
                    let _ = self.reply.remove(xid_val);
                    self.advance(need);
                    Ok(Some(Dispatched::Reply { xid: xid_val, reply: rep }))
                },
            }
        }
    }

    /// The transport closed cleanly. That is in order only with nothing
    /// buffered and nothing outstanding: bytes left in the inbound
    /// buffer are a truncated frame, and table entries (or an
    /// unanswered handshake) are requests that will never be answered.
    pub fn handle_close(&self) -> (r: Result<(), Error>)
        requires
            self.wf(),
        ensures
            r == (if self.in_view().len() != 0 {
                Err::<(), Error>((Error::Truncated { left: self.in_view().len() as usize }))
            } else if self.table() != Map::<i32, OpCode>::empty() || self.awaiting_handshake() {
                Err::<(), Error>(Error::OutstandingAtClose)
            } else {
                Ok::<(), Error>(())
            }),
    {
        let left = self.inlen();
        if left != 0 {
            Err(Error::Truncated { left })
        } else if !self.reply.is_empty() || self.handshake_pending {
            Err(Error::OutstandingAtClose)
        } else {
            Ok(())
        }
    }

    /// Exec twin of [`Self::spec_state`].
    pub fn state(&self) -> (s: PollState)
        requires
            self.wf(),
        ensures
            s == self.spec_state(),
    {
        if !self.exiting {
            PollState::Active
        } else if self.outlen() == 0 && self.inlen() == 0 && self.reply.is_empty()
            && !self.handshake_pending {
            PollState::Terminated
        } else {
            PollState::Draining
        }
    }
}

} // verus!
