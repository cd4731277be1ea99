//! Packetizer tests: framing, correlation, fragmentation, truncation,
//! and the lifecycle.

use zkwire::error::{DecodeError, Error, ZkError};
use zkwire::packetizer::{Dispatched, Packetizer, PollState};
use zkwire::response::{Response, Stat};
use zkwire::wire::write_i32_be;
use zkwire::{handshake_request, interpret_exists_reply};

fn sample_stat() -> Stat {
    Stat {
        czxid: 11,
        mzxid: 12,
        ctime: 13,
        mtime: 14,
        version: 1,
        cversion: 2,
        aversion: 3,
        ephemeral_owner: 0,
        data_length: 5,
        num_children: 0,
        pzxid: 15,
    }
}

/// The full frame bytes of a reply to correlation id `xid`.
fn reply_frame(xid: i32, payload: &[u8]) -> Vec<u8> {
    let mut frame: Vec<u8> = Vec::new();
    write_i32_be(&mut frame, (payload.len() + 4) as i32);
    write_i32_be(&mut frame, xid);
    frame.extend_from_slice(payload);
    frame
}

/// The full frame bytes of a handshake reply: no correlation id.
fn handshake_reply_frame(payload: &[u8]) -> Vec<u8> {
    let mut frame: Vec<u8> = Vec::new();
    write_i32_be(&mut frame, payload.len() as i32);
    frame.extend_from_slice(payload);
    frame
}

/// A packetizer that has completed its handshake exchange.
fn after_handshake() -> Packetizer {
    let mut p = Packetizer::new();
    assert_eq!(p.start_send(handshake_request()), Ok(None));
    // Drop the handshake request bytes as "written".
    let n = p.outlen();
    p.note_written(n);
    let reply = Response::Connect {
        protocol_version: 0,
        timeout: 30_000,
        session_id: 1,
        passwd: vec![],
        read_only: false,
    };
    p.feed(&handshake_reply_frame(&reply.encode_payload()));
    match p.try_consume_frame() {
        Ok(Some(Dispatched::HandshakeReply(r))) => assert_eq!(r, reply),
        other => panic!("expected the handshake reply, got {:?}", other),
    }
    assert!(!p.is_awaiting_handshake());
    p
}

#[test]
fn handshake_frame_has_no_correlation_id() {
    let mut p = Packetizer::new();
    assert_eq!(p.start_send(handshake_request()), Ok(None));
    let out = p.out_bytes();
    // Length prefix counting the 29 payload bytes (4+8+4+8+4+0+1),
    // then the payload itself, with no correlation id in between: all
    // fields of the default handshake are zero.
    let mut expected = vec![0u8, 0, 0, 29];
    expected.extend_from_slice(&[0u8; 29]);
    assert_eq!(out, expected);
}

#[test]
fn handshake_reply_decodes_positionally() {
    let mut p = Packetizer::new();
    assert_eq!(p.start_send(handshake_request()), Ok(None));
    let reply = Response::Connect {
        protocol_version: 0,
        timeout: 30_000,
        session_id: 12345,
        passwd: vec![1, 2, 3],
        read_only: false,
    };
    p.feed(&handshake_reply_frame(&reply.encode_payload()));
    match p.try_consume_frame() {
        Ok(Some(Dispatched::HandshakeReply(Response::Connect {
            protocol_version,
            timeout,
            session_id,
            passwd,
            read_only,
        }))) => {
            assert_eq!(protocol_version, 0);
            assert_eq!(timeout, 30_000);
            assert_eq!(session_id, 12345);
            assert_eq!(passwd, vec![1, 2, 3]);
            assert!(!read_only);
        }
        other => panic!("expected the handshake reply, got {:?}", other),
    }
}

#[test]
fn submissions_get_distinct_increasing_ids() {
    let mut p = after_handshake();
    let mut ids: Vec<i32> = Vec::new();
    for i in 0..5 {
        let req = zkwire::request::Request::Exists {
            path: format!("/node-{}", i),
            watch: false,
        };
        match p.start_send(req) {
            Ok(Some(id)) => ids.push(id),
            other => panic!("expected an id, got {:?}", other),
        }
    }
    for a in 0..ids.len() {
        for b in 0..a {
            assert_ne!(ids[a], ids[b]);
        }
    }
    // Ids are assigned in submission order, monotonically.
    for w in ids.windows(2) {
        assert!(w[0] < w[1]);
    }
}

#[test]
fn each_entry_is_removed_exactly_once() {
    let mut p = after_handshake();
    let req = zkwire::request::Request::Exists { path: String::from("/a"), watch: false };
    let id = p.start_send(req).unwrap().unwrap();

    let mut payload: Vec<u8> = Vec::new();
    write_i32_be(&mut payload, -101);
    p.feed(&reply_frame(id, &payload));
    match p.try_consume_frame() {
        Ok(Some(Dispatched::Reply { xid, reply })) => {
            assert_eq!(xid, id);
            assert_eq!(reply, Err(ZkError::NoNode));
        }
        other => panic!("expected a reply, got {:?}", other),
    }

    // A second answer to the same id finds no entry: desynchronization.
    p.feed(&reply_frame(id, &payload));
    assert_eq!(p.try_consume_frame(), Err(Error::UnknownId(id)));
}

#[test]
fn unknown_id_terminates_the_connection() {
    let mut p = after_handshake();
    let mut payload: Vec<u8> = Vec::new();
    write_i32_be(&mut payload, -101);
    p.feed(&reply_frame(42, &payload));
    assert_eq!(p.try_consume_frame(), Err(Error::UnknownId(42)));
}

#[test]
fn fragment_delivery_matches_whole_delivery() {
    // Deliver the same reply frame byte by byte to one engine and whole
    // to another, identically prepared one: the dispatch is the same.
    let mut whole = after_handshake();
    let mut split = after_handshake();
    let req = |p: &mut Packetizer| {
        p.start_send(zkwire::request::Request::Exists { path: String::from("/x"), watch: true })
            .unwrap()
            .unwrap()
    };
    let id_whole = req(&mut whole);
    let id_split = req(&mut split);
    assert_eq!(id_whole, id_split);

    let frame = reply_frame(id_whole, &Response::Exists { stat: sample_stat() }.encode_payload());

    whole.feed(&frame);
    let got_whole = whole.try_consume_frame();

    for byte in &frame {
        // Nothing dispatches before the whole frame is present.
        assert_eq!(split.try_consume_frame(), Ok(None));
        split.feed(&[*byte]);
    }
    let got_split = split.try_consume_frame();

    match (got_whole, got_split) {
        (
            Ok(Some(Dispatched::Reply { xid: x1, reply: r1 })),
            Ok(Some(Dispatched::Reply { xid: x2, reply: r2 })),
        ) => {
            assert_eq!(x1, x2);
            assert_eq!(r1, r2);
            assert_eq!(r1, Ok(Response::Exists { stat: sample_stat() }));
        }
        other => panic!("expected equal replies, got {:?}", other),
    }
    assert_eq!(split.inlen(), 0);
}

#[test]
fn close_mid_frame_is_truncation_not_shutdown() {
    let mut p = after_handshake();
    let id = p
        .start_send(zkwire::request::Request::Exists { path: String::from("/y"), watch: false })
        .unwrap()
        .unwrap();
    let frame = reply_frame(id, &Response::Exists { stat: sample_stat() }.encode_payload());
    // Only the length prefix and two more bytes arrive before the close.
    p.feed(&frame[..6]);
    assert_eq!(p.try_consume_frame(), Ok(None));
    assert_eq!(p.handle_close(), Err(Error::Truncated { left: 6 }));
}

#[test]
fn close_with_outstanding_requests_is_an_error() {
    let mut p = after_handshake();
    p.start_send(zkwire::request::Request::Exists { path: String::from("/z"), watch: false })
        .unwrap();
    // Nothing buffered inbound, but a request will never be answered.
    assert_eq!(p.handle_close(), Err(Error::OutstandingAtClose));
}

#[test]
fn clean_close_with_nothing_pending_is_fine() {
    let p = after_handshake();
    assert_eq!(p.handle_close(), Ok(()));
}

#[test]
fn domain_error_leaves_connection_alive() {
    let mut p = after_handshake();
    let id = p
        .start_send(zkwire::request::Request::Exists { path: String::from("/gone"), watch: false })
        .unwrap()
        .unwrap();
    let n = p.outlen();
    p.note_written(n);

    let mut payload: Vec<u8> = Vec::new();
    write_i32_be(&mut payload, -101);
    p.feed(&reply_frame(id, &payload));
    let reply = match p.try_consume_frame() {
        Ok(Some(Dispatched::Reply { xid, reply })) => {
            assert_eq!(xid, id);
            reply
        }
        other => panic!("expected a reply, got {:?}", other),
    };
    // The caller sees "not found", not a failure.
    assert_eq!(interpret_exists_reply(reply), Ok(None));
    // The table is empty again and the connection is fine.
    assert_eq!(p.handle_close(), Ok(()));
    assert_eq!(p.try_consume_frame(), Ok(None));
}

#[test]
fn negative_declared_length_is_rejected() {
    let mut p = after_handshake();
    p.feed(&[0xff, 0xff, 0xff, 0xff]);
    assert_eq!(p.try_consume_frame(), Err(Error::BadFrameLength(-1)));
}

#[test]
fn frame_too_short_for_an_id_is_rejected() {
    let mut p = after_handshake();
    p.feed(&[0, 0, 0, 2, 9, 9]);
    assert_eq!(p.try_consume_frame(), Err(Error::BadFrameLength(2)));
}

#[test]
fn undecodable_payload_is_malformed() {
    let mut p = after_handshake();
    let id = p
        .start_send(zkwire::request::Request::Exists { path: String::from("/m"), watch: false })
        .unwrap()
        .unwrap();
    // A one-byte payload cannot hold the result code.
    p.feed(&reply_frame(id, &[7]));
    assert_eq!(
        p.try_consume_frame(),
        Err(Error::Malformed(DecodeError::ShortInput))
    );
}

#[test]
fn lifecycle_runs_active_draining_terminated() {
    let mut p = after_handshake();
    assert_eq!(p.state(), PollState::Active);
    let id = p
        .start_send(zkwire::request::Request::Exists { path: String::from("/s"), watch: false })
        .unwrap()
        .unwrap();
    p.set_draining();
    // Outbound bytes are still queued and a reply is still owed.
    assert_eq!(p.state(), PollState::Draining);
    let n = p.outlen();
    p.note_written(n);
    assert_eq!(p.state(), PollState::Draining);
    p.feed(&reply_frame(id, &Response::Exists { stat: sample_stat() }.encode_payload()));
    assert_eq!(p.state(), PollState::Draining);
    p.try_consume_frame().unwrap();
    assert_eq!(p.state(), PollState::Terminated);
}

#[test]
fn partial_writes_advance_the_outbound_cursor() {
    let mut p = Packetizer::new();
    p.start_send(handshake_request()).unwrap();
    let all = p.out_bytes();
    assert_eq!(p.outlen(), all.len());
    p.note_written(3);
    assert_eq!(p.outlen(), all.len() - 3);
    assert_eq!(p.out_bytes(), all[3..].to_vec());
    let left = p.outlen();
    p.note_written(left);
    assert_eq!(p.outlen(), 0);
}
