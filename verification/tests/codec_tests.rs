use ironmq::codec::{decode_frame, encode_frame, DecodeOutcome};
use ironmq::frame::Frame;
use ironmq::value::{get_table, get_u64, put_table, put_u64, FieldValue, TableEntry, TableValue};

#[test]
fn encode_header_frame() {
    let buf = encode_frame(&Frame::Header);

    assert!(buf.len() == 8);

    let expected = b"AMQP\x00\x00\x09\x01";

    assert_eq!(&expected[..], &buf[..]);
}

#[test]
fn encode_method_frame() {
    let args = vec![
        FieldValue::U8(0x9A),
        FieldValue::U16(0x1122),
        FieldValue::U32(0x55667788),
        FieldValue::SimpleString(b"test".to_vec()),
        FieldValue::LongString(b"longtest".to_vec()),
    ];
    let buf = encode_frame(&Frame::Method(0x0205, 0x00FF00FE, args));

    assert!(buf.len() > 8);

    let frame_header = b"\x01\x02\x05";
    let class_method = b"\x00\xFF\x00\xFE";

    let mut argbuf: Vec<u8> = Vec::new();
    argbuf.extend_from_slice(&class_method[..]);
    argbuf.extend_from_slice(&b"\x9A"[..]);
    argbuf.extend_from_slice(&b"\x11\x22"[..]);
    argbuf.extend_from_slice(&b"\x55\x66\x77\x88"[..]);
    argbuf.extend_from_slice(&b"\x04test"[..]);
    argbuf.extend_from_slice(&b"\x00\x00\x00\x08longtest"[..]);

    let mut expected: Vec<u8> = Vec::new();
    expected.extend_from_slice(&frame_header[..]);
    expected.extend_from_slice(&(argbuf.len() as u32).to_be_bytes());
    expected.extend_from_slice(&argbuf);
    expected.push(0xCE);

    assert_eq!(expected, buf);
}

#[test]
fn method_frame_round_trip_with_bit_packing() {
    // exchange.declare carries five consecutive booleans: they must
    // share one byte on the wire and come back intact.
    let f = ironmq::frame::exchange_declare(
        7,
        b"logs".to_vec(),
        b"fanout".to_vec(),
        true,
        false,
        true,
        false,
        true,
    );
    let bytes = encode_frame(&f);
    match decode_frame(&bytes, 0) {
        DecodeOutcome::Decoded(g, used) => {
            assert_eq!(used, bytes.len());
            match g {
                Frame::Method(ch, cm, args) => {
                    assert_eq!(ch, 7);
                    assert_eq!(cm, ironmq::frame::EXCHANGE_DECLARE);
                    assert_eq!(args.len(), 9);
                    assert!(matches!(&args[1], FieldValue::SimpleString(v) if v == b"logs"));
                    assert!(matches!(&args[2], FieldValue::SimpleString(v) if v == b"fanout"));
                    assert!(matches!(args[3], FieldValue::Bool(true)));
                    assert!(matches!(args[4], FieldValue::Bool(false)));
                    assert!(matches!(args[5], FieldValue::Bool(true)));
                    assert!(matches!(args[6], FieldValue::Bool(false)));
                    assert!(matches!(args[7], FieldValue::Bool(true)));
                },
                _ => panic!("expected a method frame"),
            }
        },
        _ => panic!("expected a decoded frame"),
    }
    // The five booleans occupy exactly one byte: payload is
    // 4 (class-method) + 2 (reserved short) + 5 + 7 (short strings)
    // + 1 (bits) + 4 (empty table) bytes, inside a 7-byte frame head
    // and the closing terminator byte.
    assert_eq!(bytes.len(), 7 + 4 + 2 + 5 + 7 + 1 + 4 + 1);
}

#[test]
fn decode_rejects_bad_terminator() {
    let f = ironmq::frame::channel_open(1);
    let mut bytes = encode_frame(&f);
    let last = bytes.len() - 1;
    bytes[last] = 0x00;
    assert!(matches!(decode_frame(&bytes, 0), DecodeOutcome::Failed(501)));
}

#[test]
fn decode_needs_more_on_partial_frame() {
    let f = ironmq::frame::channel_open(1);
    let bytes = encode_frame(&f);
    for cut in 0..bytes.len() {
        match decode_frame(&bytes[..cut], 0) {
            DecodeOutcome::NeedMore => {},
            _ => panic!("a prefix of {} bytes must ask for more", cut),
        }
    }
}

#[test]
fn decode_respects_frame_max() {
    let f = Frame::ContentBody(1, vec![0u8; 5000]);
    let bytes = encode_frame(&f);
    assert!(matches!(decode_frame(&bytes, 4096), DecodeOutcome::Failed(501)));
    assert!(matches!(decode_frame(&bytes, 0), DecodeOutcome::Decoded(_, _)));
}

#[test]
fn streaming_decode_yields_frames_in_order() {
    let f1 = ironmq::frame::channel_open(1);
    let f2 = Frame::ContentBody(1, b"abc".to_vec());
    let mut bytes = encode_frame(&f1);
    bytes.extend_from_slice(&encode_frame(&f2));

    let used1 = match decode_frame(&bytes, 0) {
        DecodeOutcome::Decoded(Frame::Method(1, cm, _), used) => {
            assert_eq!(cm, ironmq::frame::CHANNEL_OPEN);
            used
        },
        _ => panic!("expected the first frame"),
    };
    match decode_frame(&bytes[used1..], 0) {
        DecodeOutcome::Decoded(Frame::ContentBody(1, body), used2) => {
            assert_eq!(body, b"abc".to_vec());
            assert_eq!(used1 + used2, bytes.len());
        },
        _ => panic!("expected the second frame"),
    }
}

#[test]
fn protocol_header_round_trip() {
    let bytes = encode_frame(&Frame::Header);
    match decode_frame(&bytes, 0) {
        DecodeOutcome::Decoded(Frame::Header, 8) => {},
        _ => panic!("expected the protocol header"),
    }
}

#[test]
fn u64_round_trip() {
    let mut buf: Vec<u8> = Vec::new();
    put_u64(&mut buf, 0x0123456789ABCDEF);
    assert_eq!(buf, vec![0x01, 0x23, 0x45, 0x67, 0x89, 0xAB, 0xCD, 0xEF]);
    let (x, end) = get_u64(&buf, 0).unwrap();
    assert_eq!(x, 0x0123456789ABCDEF);
    assert_eq!(end, 8);
}

#[test]
fn table_round_trip() {
    let entries = vec![
        TableEntry { key: b"x-match".to_vec(), value: TableValue::SimpleString(b"any".to_vec()) },
        TableEntry { key: b"k".to_vec(), value: TableValue::I32(-7) },
        TableEntry { key: b"flag".to_vec(), value: TableValue::Bool(true) },
    ];
    let mut buf: Vec<u8> = Vec::new();
    put_table(&mut buf, &entries);
    let (back, end) = get_table(&buf, 0).unwrap();
    assert_eq!(end, buf.len());
    assert_eq!(back.len(), 3);
    assert_eq!(back[0].key, b"x-match".to_vec());
    assert!(matches!(&back[0].value, TableValue::SimpleString(v) if v == b"any"));
    assert!(matches!(back[1].value, TableValue::I32(-7)));
    assert!(matches!(back[2].value, TableValue::Bool(true)));
}

#[test]
fn content_header_round_trip() {
    let h = ironmq::frame::plain_header(3, 60, 70000);
    let bytes = encode_frame(&Frame::ContentHeader(h));
    match decode_frame(&bytes, 0) {
        DecodeOutcome::Decoded(Frame::ContentHeader(g), used) => {
            assert_eq!(used, bytes.len());
            assert_eq!(g.channel, 3);
            assert_eq!(g.class_id, 60);
            assert_eq!(g.weight, 0);
            assert_eq!(g.body_size, 70000);
            assert_eq!(g.prop_flags, 0);
        },
        _ => panic!("expected a content header"),
    }
}
