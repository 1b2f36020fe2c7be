//! Packets and frames.

use lite_mc_ping::protocol::{
    build_handshake, build_ping_packet, build_status_frame, build_status_request, now_nanos,
    pack_frame, parse_pong_frame, parse_status_frame, read_frame, FrameReader,
};
use lite_mc_ping::wire::{read_varint, write_varint};
use lite_mc_ping::Error;
use std::io::{Cursor, Write};
use varint::VarintWrite;

#[test]
fn handshake_bytes_match_known_good() {
    // protocol -1 (latest) must encode as five 0xFF bytes, not zigzag!
    let frame = build_handshake(-1, "localhost", 25565).unwrap();
    let expected: &[u8] = &[
        0x13, // frame length (19)
        0x00, // packet id
        0xFF, 0xFF, 0xFF, 0xFF, 0x0F, // protocol version -1
        0x09, // "localhost"
        b'l', b'o', b'c', b'a', b'l', b'h', b'o', b's', b't', 0x63, 0xDD, // port 25565
        0x01, // next state: status
    ];
    assert_eq!(frame, expected);
}

#[test]
fn handshake_with_positive_protocol() {
    let frame = build_handshake(765, "mc.example.com", 25566).unwrap();
    let expected: &[u8] = &[
        0x15, // 21
        0x00, // packet id
        0xFD, 0x05, // 765 varint
        0x0E, // "mc.example.com" (14)
        b'm', b'c', b'.', b'e', b'x', b'a', b'm', b'p', b'l', b'e', b'.', b'c', b'o', b'm', 0x63,
        0xDE, // 25566
        0x01,
    ];
    assert_eq!(frame, expected);
}

#[test]
fn status_request_frame() {
    assert_eq!(build_status_request().unwrap(), vec![0x01, 0x00]);
}

#[test]
fn ping_packet_frame() {
    let frame = build_ping_packet(0x0102030405060708).unwrap();
    assert_eq!(
        frame,
        vec![0x09, 0x01, 0x01, 0x02, 0x03, 0x04, 0x05, 0x06, 0x07, 0x08]
    );
}

#[test]
fn varint_roundtrip_via_crate() {
    for value in [
        0u32,
        1,
        127,
        128,
        255,
        300,
        16_383,
        16_384,
        0x7FFF_FFFF,
        0xFFFF_FFFF,
    ] {
        let mut out = Cursor::new(Vec::new());
        out.write_unsigned_varint_32(value).unwrap();
        let inp = out.into_inner();
        assert_eq!(
            read_varint(&inp, 0).unwrap(),
            (value, inp.len()),
            "value {value}"
        );
    }
}

#[test]
fn varint_rejects_sixth_continuation_byte() {
    // 5 continuation bytes + one more: would exceed u32 and panic in the crate's
    // unbounded loop if not capped.
    let data: &[u8] = &[0x80, 0x80, 0x80, 0x80, 0x80, 0x01];
    assert!(matches!(read_varint(data, 0), Err(Error::Malformed(_))));
}

#[test]
fn parse_status_frame_ok() {
    let json = br#"{"version":{"name":"1.21.4","protocol":769},"players":{"max":100,"online":2},"description":{"text":"Hello"}}"#;
    let mut body = Cursor::new(Vec::new());
    body.write_unsigned_varint_32(0x00).unwrap();
    body.write_unsigned_varint_32(json.len() as u32).unwrap();
    body.write_all(json).unwrap();

    let text = parse_status_frame(&body.into_inner()).unwrap();
    assert_eq!(text, json);
    let status: serde_json::Value = serde_json::from_slice(&text).unwrap();
    assert_eq!(status["version"]["name"], "1.21.4");
    assert_eq!(status["version"]["protocol"], 769);
    assert_eq!(status["players"]["max"], 100);
    assert_eq!(status["players"]["online"], 2);
    assert_eq!(
        status["description"],
        serde_json::from_str::<serde_json::Value>(r#"{"text": "Hello"}"#).unwrap()
    );
}

#[test]
fn parse_status_frame_wrong_packet_id() {
    let mut body = Cursor::new(Vec::new());
    body.write_unsigned_varint_32(0x02).unwrap();
    assert!(matches!(
        parse_status_frame(&body.into_inner()),
        Err(Error::UnexpectedPacket {
            expected: 0x00,
            got: 0x02
        })
    ));
}

#[test]
fn parse_status_frame_json_overruns_frame() {
    let json = b"{}";
    let mut body = Cursor::new(Vec::new());
    body.write_unsigned_varint_32(0x00).unwrap();
    body.write_unsigned_varint_32(100_000).unwrap(); // claims more than present
    body.write_all(json).unwrap();
    assert!(matches!(
        parse_status_frame(&body.into_inner()),
        Err(Error::Malformed(_))
    ));
}

#[test]
fn parse_pong_ok() {
    let mut body = Cursor::new(Vec::new());
    body.write_unsigned_varint_32(0x01).unwrap();
    body.write_all(&0x1122334455667788i64.to_be_bytes()).unwrap();
    assert_eq!(
        parse_pong_frame(&body.into_inner()).unwrap(),
        0x1122334455667788
    );
}

#[test]
fn read_frame_caps_varint_at_five_bytes() {
    let err = read_frame(&[0x80, 0x80, 0x80, 0x80, 0x80, 0x01], 1024).unwrap_err();
    assert!(matches!(err, Error::Malformed(_)));
}

#[test]
fn read_frame_enforces_max_size() {
    let mut data = vec![0x0A]; // declared length 10
    data.extend_from_slice(&[0u8; 10]);
    let err = read_frame(&data, 8).unwrap_err();
    assert!(matches!(err, Error::FrameTooLarge { .. }));
}

#[test]
fn read_frame_reads_exact_body() {
    let payload = [0x00, 0x01, 0x02, 0x03];
    let mut data = vec![payload.len() as u8];
    data.extend_from_slice(&payload);
    let (frame, used) = read_frame(&data, 1024).unwrap().unwrap();
    assert_eq!(frame, payload);
    assert_eq!(used, data.len());
}

fn message(error: Error) -> String {
    match error {
        Error::Malformed(message) => message,
        other => panic!("{other:?}"),
    }
}

#[test]
fn each_refusal_has_its_message() {
    assert_eq!(
        message(read_varint(&[0x80], 0).unwrap_err()),
        "bad VarInt: Could not read one byte (end of stream?)"
    );
    assert_eq!(
        message(read_varint(&[], 0).unwrap_err()),
        "bad VarInt: Could not read one byte (end of stream?)"
    );
    assert_eq!(
        message(read_frame(&[0xFF; 5], 9).unwrap_err()),
        "frame length VarInt exceeds 5 bytes"
    );
    assert_eq!(
        message(parse_status_frame(&[0x00, 0xA0, 0x8D, 0x06, b'{', b'}']).unwrap_err()),
        "JSON length overruns frame: 4 + 100000 > 6"
    );
    assert_eq!(
        message(parse_pong_frame(&[0x01, 1, 2, 3]).unwrap_err()),
        "pong payload must be 8 bytes, got 3"
    );
    assert_eq!(
        message(parse_status_frame(&[]).unwrap_err()),
        "bad VarInt: Could not read one byte (end of stream?)"
    );
    assert_eq!(
        message(parse_status_frame(&[0x00]).unwrap_err()),
        "bad VarInt: Could not read one byte (end of stream?)"
    );
}

#[test]
fn unexpected_packet_ids_are_cut_to_a_byte() {
    let mut body = Vec::new();
    write_varint(&mut body, 0x1234).unwrap();
    assert!(matches!(
        parse_pong_frame(&body),
        Err(Error::UnexpectedPacket {
            expected: 0x01,
            got: 0x34
        })
    ));
}

#[test]
fn varint_bytes_match_known_good() {
    for (value, bytes) in [
        (0u32, vec![0x00u8]),
        (127, vec![0x7F]),
        (128, vec![0x80, 0x01]),
        (25565, vec![0xDD, 0xC7, 0x01]),
        (0xFFFF_FFFF, vec![0xFF, 0xFF, 0xFF, 0xFF, 0x0F]),
    ] {
        let mut out = vec![0xEE];
        write_varint(&mut out, value).unwrap();
        assert_eq!(out[0], 0xEE);
        assert_eq!(out[1..], bytes);
        out.push(0x77);
        assert_eq!(read_varint(&out, 1).unwrap(), (value, out.len() - 1));
    }
}

#[test]
fn varints_drop_what_exceeds_32_bits() {
    assert_eq!(
        read_varint(&[0xFF, 0xFF, 0xFF, 0xFF, 0x7F], 0).unwrap(),
        (0xFFFF_FFFF, 5)
    );
    assert_eq!(
        read_varint(&[0x81, 0x80, 0x80, 0x80, 0x70], 0).unwrap(),
        (1, 5)
    );
    let mut reader = FrameReader::new(u32::MAX);
    for byte in [0x81, 0x80, 0x80, 0x80] {
        assert!(matches!(reader.take_byte(byte), Ok(None)));
    }
    assert!(matches!(reader.take_byte(0x70), Ok(Some(1))));
}

#[test]
fn frames_read_back_one_after_another() {
    let mut stream = build_handshake(47, "é.example", 1).unwrap();
    stream.extend(build_status_request().unwrap());
    stream.extend(build_ping_packet(-2).unwrap());
    let (handshake, used) = read_frame(&stream, 64).unwrap().unwrap();
    assert_eq!(handshake[1], 47);
    assert_eq!(&handshake[2..13], b"\x0a\xc3\xa9.example");
    let rest = &stream[used..];
    let (request, used) = read_frame(rest, 64).unwrap().unwrap();
    assert_eq!(request, [0x00]);
    let (ping, used_by_ping) = read_frame(&rest[used..], 64).unwrap().unwrap();
    assert_eq!(used + used_by_ping, rest.len());
    assert_eq!(parse_pong_frame(&ping).unwrap(), -2);
}

#[test]
fn a_frame_is_awaited_until_it_is_complete() {
    let frame = pack_frame(&[7u8; 300]).unwrap();
    for n in 0..frame.len() {
        assert!(matches!(read_frame(&frame[..n], 300), Ok(None)), "{n}");
    }
    let (body, used) = read_frame(&frame, 300).unwrap().unwrap();
    assert_eq!(body, [7u8; 300]);
    assert_eq!(used, 302);
    assert!(matches!(
        read_frame(&frame[..2], 299),
        Err(Error::FrameTooLarge {
            len: 300,
            limit: 299
        })
    ));
}

#[test]
fn later_bytes_change_nothing() {
    let mut stream = pack_frame(b"body").unwrap();
    let before = read_frame(&stream, 9).unwrap();
    stream.extend_from_slice(&[0xFF; 9]);
    assert_eq!(read_frame(&stream, 9).unwrap(), before);
}

#[test]
fn an_empty_frame_is_a_frame() {
    assert_eq!(read_frame(&[0x00], 0).unwrap(), Some((vec![], 1)));
}

#[test]
fn a_status_response_reads_back() {
    let json = r#"{"description":"§lHi"}"#;
    let frame = build_status_frame(json).unwrap();
    let (body, _) = read_frame(&frame, 1024).unwrap().unwrap();
    assert_eq!(parse_status_frame(&body).unwrap(), json.as_bytes());
    // Bytes behind the text are not looked at.
    let mut longer = body.clone();
    longer.push(0x55);
    assert_eq!(parse_status_frame(&longer).unwrap(), json.as_bytes());
}

#[test]
fn pongs_echo_any_timestamp() {
    for timestamp in [0, 1, -1, i64::MAX, i64::MIN, 0x0123_4567_89AB_CDEF] {
        let frame = build_ping_packet(timestamp).unwrap();
        let (body, _) = read_frame(&frame, 9).unwrap().unwrap();
        assert_eq!(parse_pong_frame(&body).unwrap(), timestamp);
    }
}

#[test]
fn the_clock_is_cut_to_64_bits() {
    assert_eq!(now_nanos(None), 0);
    assert_eq!(now_nanos(Some(1_700_000_000_000_000_000)), 1_700_000_000_000_000_000);
    assert_eq!(now_nanos(Some(0x8000_0000_0000_0000)), i64::MIN);
    assert_eq!(now_nanos(Some(0x5_FFFF_FFFF_FFFF_FFFF)), -1);
}
