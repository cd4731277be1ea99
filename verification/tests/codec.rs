//! Wire codec tests: primitive fields, response round trips, decode
//! failures, and the reader traits.

use zkwire::error::{DecodeError, ZkError};
use zkwire::request::{OpCode, Request};
use zkwire::response::{BufferReader, ReadFrom, Response, Stat, StringReader};
use zkwire::wire::{write_buffer, write_i32_be, write_i64_be, write_u8, ByteReader};

fn sample_stat() -> Stat {
    Stat {
        czxid: 0x0102030405060708,
        mzxid: -9,
        ctime: 1_600_000_000_123,
        mtime: 1_600_000_000_456,
        version: 7,
        cversion: -1,
        aversion: 3,
        ephemeral_owner: 0x7fff_ffff_ffff_ffff,
        data_length: 42,
        num_children: 2,
        pzxid: -0x0102030405060708,
    }
}

fn assert_stat_eq(a: &Stat, b: &Stat) {
    assert_eq!(a, b);
}

#[test]
fn i32_field_round_trips_through_bytes() {
    let mut buf: Vec<u8> = Vec::new();
    write_i32_be(&mut buf, -1);
    assert_eq!(buf, vec![0xff, 0xff, 0xff, 0xff]);
    write_i32_be(&mut buf, 0x0102_0304);
    assert_eq!(&buf[4..], &[0x01, 0x02, 0x03, 0x04]);

    let mut reader = ByteReader::new(buf);
    assert_eq!(reader.read_i32_be(), Ok(-1));
    assert_eq!(reader.read_i32_be(), Ok(0x0102_0304));
    assert_eq!(reader.read_i32_be(), Err(DecodeError::ShortInput));
}

#[test]
fn i64_field_round_trips_through_bytes() {
    let mut buf: Vec<u8> = Vec::new();
    write_i64_be(&mut buf, i64::MIN);
    write_i64_be(&mut buf, i64::MAX);
    write_i64_be(&mut buf, -2);
    let mut reader = ByteReader::new(buf);
    assert_eq!(reader.read_i64_be(), Ok(i64::MIN));
    assert_eq!(reader.read_i64_be(), Ok(i64::MAX));
    assert_eq!(reader.read_i64_be(), Ok(-2));
}

#[test]
fn buffer_with_negative_length_decodes_empty() {
    // A negative declared length is "no payload": distinct from a zero
    // length, but both decode to an empty value.
    let mut reader = ByteReader::new(vec![0xff, 0xff, 0xff, 0xff, 0xaa]);
    assert_eq!(reader.read_buffer(), Ok(vec![]));
    // The byte after the length field is still there to be read.
    assert_eq!(reader.read_u8(), Ok(0xaa));
}

#[test]
fn buffer_with_zero_length_decodes_empty() {
    let mut reader = ByteReader::new(vec![0, 0, 0, 0]);
    assert_eq!(reader.read_buffer(), Ok(vec![]));
    assert!(reader.at_end());
}

#[test]
fn buffer_longer_than_remaining_bytes_fails() {
    let mut reader = ByteReader::new(vec![0, 0, 0, 5, 1, 2]);
    assert_eq!(reader.read_buffer(), Err(DecodeError::ShortInput));
}

#[test]
fn string_field_decodes_utf8() {
    let mut buf: Vec<u8> = Vec::new();
    write_buffer(&mut buf, "caf\u{e9}".as_bytes());
    let mut reader = ByteReader::new(buf);
    assert_eq!(reader.read_string(), Ok(String::from("caf\u{e9}")));
}

#[test]
fn string_field_rejects_invalid_utf8() {
    let mut reader = ByteReader::new(vec![0, 0, 0, 1, 0xff]);
    assert_eq!(reader.read_string(), Err(DecodeError::BadUtf8));
}

#[test]
fn stat_reads_its_eleven_fields() {
    let stat = sample_stat();
    let mut buf: Vec<u8> = Vec::new();
    write_i64_be(&mut buf, stat.czxid);
    write_i64_be(&mut buf, stat.mzxid);
    write_i64_be(&mut buf, stat.ctime);
    write_i64_be(&mut buf, stat.mtime);
    write_i32_be(&mut buf, stat.version);
    write_i32_be(&mut buf, stat.cversion);
    write_i32_be(&mut buf, stat.aversion);
    write_i64_be(&mut buf, stat.ephemeral_owner);
    write_i32_be(&mut buf, stat.data_length);
    write_i32_be(&mut buf, stat.num_children);
    write_i64_be(&mut buf, stat.pzxid);
    assert_eq!(buf.len(), 68);

    let mut reader = ByteReader::new(buf);
    let decoded = Stat::read_from(&mut reader).unwrap();
    assert_stat_eq(&decoded, &stat);
    assert!(reader.at_end());
}

#[test]
fn exists_response_round_trips() {
    let stat = sample_stat();
    let resp = Response::Exists { stat };
    let payload = resp.encode_payload();
    match Response::parse(OpCode::Exists, payload) {
        Ok(Ok(Response::Exists { stat: decoded })) => assert_stat_eq(&decoded, &stat),
        other => panic!("expected an Exists response, got {:?}", other),
    }
}

#[test]
fn connect_response_round_trips_empty_passwd() {
    let resp = Response::Connect {
        protocol_version: 0,
        timeout: 0,
        session_id: 0,
        passwd: vec![],
        read_only: false,
    };
    let payload = resp.encode_payload();
    match Response::parse(OpCode::CreateSession, payload) {
        Ok(Ok(Response::Connect { protocol_version, timeout, session_id, passwd, read_only })) => {
            assert_eq!(protocol_version, 0);
            assert_eq!(timeout, 0);
            assert_eq!(session_id, 0);
            assert_eq!(passwd, Vec::<u8>::new());
            assert!(!read_only);
        }
        other => panic!("expected a Connect response, got {:?}", other),
    }
}

#[test]
fn connect_response_round_trips_long_passwd() {
    let secret: Vec<u8> = (0..10_000u32).map(|i| (i % 251) as u8).collect();
    let resp = Response::Connect {
        protocol_version: 1,
        timeout: 40_000,
        session_id: -1,
        passwd: secret.clone(),
        read_only: true,
    };
    let payload = resp.encode_payload();
    match Response::parse(OpCode::CreateSession, payload) {
        Ok(Ok(Response::Connect { protocol_version, timeout, session_id, passwd, read_only })) => {
            assert_eq!(protocol_version, 1);
            assert_eq!(timeout, 40_000);
            assert_eq!(session_id, -1);
            assert_eq!(passwd, secret);
            assert!(read_only);
        }
        other => panic!("expected a Connect response, got {:?}", other),
    }
}

#[test]
fn domain_error_code_decodes_to_no_node() {
    let mut payload: Vec<u8> = Vec::new();
    write_i32_be(&mut payload, -101);
    assert_eq!(Response::parse(OpCode::Exists, payload), Ok(Err(ZkError::NoNode)));
}

#[test]
fn other_error_codes_are_preserved() {
    let mut payload: Vec<u8> = Vec::new();
    write_i32_be(&mut payload, -110);
    assert_eq!(Response::parse(OpCode::Exists, payload), Ok(Err(ZkError::Other(-110))));
}

#[test]
fn short_payload_is_a_decode_error() {
    assert_eq!(
        Response::parse(OpCode::Exists, vec![0, 0]),
        Err(DecodeError::ShortInput)
    );
    // A zero result code promises a Stat; three bytes are not one.
    assert_eq!(
        Response::parse(OpCode::Exists, vec![0, 0, 0, 0, 1, 2, 3]),
        Err(DecodeError::ShortInput)
    );
}

#[test]
fn trailing_bytes_are_a_decode_error() {
    let stat = sample_stat();
    let mut payload = Response::Exists { stat }.encode_payload();
    payload.push(0);
    assert_eq!(Response::parse(OpCode::Exists, payload), Err(DecodeError::TrailingBytes));

    let mut err_payload: Vec<u8> = Vec::new();
    write_i32_be(&mut err_payload, -101);
    write_u8(&mut err_payload, 9);
    assert_eq!(Response::parse(OpCode::Exists, err_payload), Err(DecodeError::TrailingBytes));
}

#[test]
fn unsupported_operations_fail_explicitly() {
    // Decoding for an operation the codec does not yet support is a
    // hard, named failure — never a silent misparse.
    assert_eq!(Response::parse(OpCode::Ping, vec![]), Err(DecodeError::UnsupportedOp));
    assert_eq!(Response::parse(OpCode::GetData, vec![0, 0, 0, 0]), Err(DecodeError::UnsupportedOp));
}

#[test]
fn exists_request_payload_layout() {
    let req = Request::Exists { path: String::from("/foo"), watch: false };
    let mut buf: Vec<u8> = Vec::new();
    req.serialize_into(&mut buf);
    // Opcode 3, then the path as a length-prefixed string, then the
    // watch flag.
    assert_eq!(
        buf,
        vec![0, 0, 0, 3, 0, 0, 0, 4, b'/', b'f', b'o', b'o', 0]
    );
    assert_eq!(req.opcode(), OpCode::Exists);
}
