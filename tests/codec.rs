use amqp_proto::arguments::{
    AccessRequest, BasicConsume, BasicNack, ConnectionStart, ConnectionTune, ExchangeUnbindOk,
};
use amqp_proto::{
    Arguments, BasicProperties, Class, DecodeContext, DecodedFrame, FieldName, FieldTable,
    FieldValue, Frame, FrameCodec, FrameDecodeErr, LongStr, Method, ExchangeMethod, MethodId,
    MethodPayload, Payload, ProtocolHeader, ShortStr, SyntaxErrorKind, AmqpErrorKind,
    Decimal, HeartbeatPayload, Property,
};

fn put_u32(v: &mut Vec<u8>, x: u32) {
    v.extend_from_slice(&x.to_be_bytes());
}

fn name(s: &str) -> FieldName {
    FieldName::with_bytes(s.as_bytes()).unwrap()
}

fn short(s: &str) -> ShortStr {
    ShortStr::with_bytes(s.as_bytes()).unwrap()
}

fn frame_bytes(frame_type: u8, channel: u16, payload: &[u8]) -> Vec<u8> {
    let mut v = vec![frame_type];
    v.extend_from_slice(&channel.to_be_bytes());
    put_u32(&mut v, payload.len() as u32);
    v.extend_from_slice(payload);
    v.push(0xce);
    v
}

#[test]
fn test_connection_start() {
    let mut connection_start = ConnectionStart::default();
    connection_start.set_version_major(0);
    connection_start.set_version_minor(9);

    assert_eq!(connection_start.version_major(), 0);
}

#[test]
fn test_field_table() {
    let mut table = FieldTable::new();
    table.insert(name("hello"), FieldValue::from_u32(0x12345678u32));
    table.insert(name("world"), FieldValue::from_long_string(LongStr::with_bytes(b"hello").unwrap()));
    let mut ret: Vec<u8> = Vec::with_capacity(128);
    ret.push(b'F');
    put_u32(&mut ret, 27u32);
    // entries in the table's order: "hello" was inserted first
    ret.push(5u8);
    ret.extend_from_slice(b"hello");
    ret.push(b'i');
    put_u32(&mut ret, 0x12345678u32);
    ret.push(5u8);
    ret.extend_from_slice(b"world");
    ret.push(b'S');
    put_u32(&mut ret, 5u32);
    ret.extend_from_slice(b"hello");
    if let (_, FieldValue::FieldTable(t)) = FieldValue::decode(&ret).unwrap() {
        assert!(matches!(t.get(&name("hello")).unwrap(), FieldValue::U32(v) if *v == 0x12345678u32));
        assert!(matches!(t.get(&name("world")).unwrap(), FieldValue::LongStr(v) if v.to_string() == String::from("hello")));
    } else {
        panic!("Expected FieldTable value");
    }
}

#[test]
fn protocol_header_is_one_event_with_nothing_left() {
    let input = [0x41u8, 0x4D, 0x51, 0x50, 0x00, 0x00, 0x09, 0x01];
    let mut codec = FrameCodec::new();
    match codec.decode(&input) {
        Ok(Some((n, DecodedFrame::ProtocolHeader(h)))) => {
            assert_eq!(n, 8);
            assert_eq!(h, ProtocolHeader::new());
        }
        other => panic!("unexpected {:?}", other),
    }
    assert!(codec.header_received());
}

#[test]
fn protocol_header_http_is_syntax_error() {
    let input = b"HTTP/1.1";
    let mut codec = FrameCodec::new();
    assert_eq!(
        codec.decode(input).unwrap_err(),
        FrameDecodeErr::SyntaxError(SyntaxErrorKind::WrongProtocol)
    );
    assert!(!codec.header_received());
}

#[test]
fn protocol_header_encodes_banner() {
    let mut out = Vec::new();
    ProtocolHeader::new().encode(&mut out);
    assert_eq!(out, vec![0x41u8, 0x4D, 0x51, 0x50, 0x00, 0x00, 0x09, 0x01]);
}

#[test]
fn heartbeat_frame_on_channel_zero() {
    let input = [0x04u8, 0, 0, 0, 0, 0, 0, 0xCE];
    let (rest, frame) = Frame::decode(&input).unwrap();
    assert!(rest.is_empty());
    assert_eq!(frame.channel, 0);
    assert!(matches!(frame.payload, Payload::Heartbeat(_)));
    let mut out = Vec::new();
    frame.encode(&mut out);
    assert_eq!(out, input.to_vec());
}

#[test]
fn heartbeat_with_payload_is_rejected() {
    let input = frame_bytes(4, 0, &[1]);
    assert_eq!(
        Frame::decode(&input).unwrap_err(),
        FrameDecodeErr::SyntaxError(SyntaxErrorKind::HeartbeatLength)
    );
}

#[test]
fn unknown_frame_type_is_rejected() {
    let input = [0x08u8, 0, 0, 0, 0, 0, 0, 0xCE];
    assert_eq!(
        Frame::decode(&input).unwrap_err(),
        FrameDecodeErr::SyntaxError(SyntaxErrorKind::UnknownFrameType)
    );
}

#[test]
fn incomplete_frame_keeps_buffer() {
    let mut codec = FrameCodec::new();
    codec.decode(&[0x41u8, 0x4D, 0x51, 0x50, 0x00, 0x00, 0x09, 0x01]).unwrap();
    let mut input = vec![0x01u8, 0x00, 0x01, 0x00, 0x00, 0x00, 0x04, 0x00, 0x0A, 0x00, 0x0A];
    assert!(matches!(codec.decode(&input), Ok(None)));
    input.push(0xCE);
    // the frame is now whole; its four payload octets name Connection.Start
    // but hold none of its arguments
    assert_eq!(
        codec.decode(&input).unwrap_err(),
        FrameDecodeErr::DecodeError(DecodeContext::MethodPayload)
    );
}

#[test]
fn connection_start_frame_decodes() {
    let mut payload = vec![0x00u8, 0x0A, 0x00, 0x0A, 0x00, 0x09];
    put_u32(&mut payload, 0);
    put_u32(&mut payload, 5);
    payload.extend_from_slice(b"PLAIN");
    put_u32(&mut payload, 5);
    payload.extend_from_slice(b"en_US");
    let input = frame_bytes(1, 1, &payload);
    for k in 0..input.len() {
        assert_eq!(Frame::decode(&input[..k]).unwrap_err(), FrameDecodeErr::Incomplete);
    }
    let (rest, frame) = Frame::decode(&input).unwrap();
    assert!(rest.is_empty());
    assert_eq!(frame.channel, 1);
    match &frame.payload {
        Payload::Method(m) => {
            assert_eq!(m.class(), Class::Connection);
            assert_eq!(m.method().method_id(), 10);
            match &m.args {
                Arguments::ConnectionStart(s) => {
                    assert_eq!(s.version_major, 0);
                    assert_eq!(s.version_minor, 9);
                    assert_eq!(s.mechanisms.to_string(), "PLAIN");
                    assert_eq!(s.locales.to_string(), "en_US");
                    assert!(s.server_properties.is_empty());
                }
                other => panic!("unexpected {:?}", other),
            }
        }
        other => panic!("unexpected {:?}", other),
    }
    let mut out = Vec::new();
    frame.encode(&mut out);
    assert_eq!(out, input);
}

#[test]
fn field_table_round_trip() {
    let mut t = FieldTable::new();
    t.insert(name("a"), FieldValue::from_u32(0x12345678));
    t.insert(name("b"), FieldValue::from_long_string(LongStr::with_bytes(b"hi").unwrap()));
    let mut bytes = Vec::new();
    FieldValue::from_field_table(t).encode(&mut bytes);
    let (rest, v) = FieldValue::decode(&bytes).unwrap();
    assert!(rest.is_empty());
    let t2 = match &v {
        FieldValue::FieldTable(t2) => t2,
        other => panic!("unexpected {:?}", other),
    };
    assert_eq!(t2.len(), 2);
    assert!(matches!(t2.get(&name("a")), Some(FieldValue::U32(0x12345678))));
    assert!(matches!(t2.get(&name("b")), Some(FieldValue::LongStr(s)) if s.to_string() == "hi"));
    let mut again = Vec::new();
    v.encode(&mut again);
    assert_eq!(&again[1..5], &bytes[1..5]);
    assert_eq!(again, bytes);
}

#[test]
fn field_table_duplicate_key_overwrites() {
    let mut body = Vec::new();
    for x in [1u8, 2u8] {
        body.push(1);
        body.push(b'k');
        body.push(b'B');
        body.push(x);
    }
    let mut bytes = Vec::new();
    put_u32(&mut bytes, body.len() as u32);
    bytes.extend_from_slice(&body);
    let (_, t) = FieldTable::decode(&bytes).unwrap();
    assert_eq!(t.len(), 1);
    assert!(matches!(t.get(&name("k")), Some(FieldValue::U8(2))));
}

#[test]
fn empty_table_and_array_round_trip() {
    let mut out = Vec::new();
    FieldTable::new().encode(&mut out);
    assert_eq!(out, vec![0, 0, 0, 0]);
    let (_, t) = FieldTable::decode(&out).unwrap();
    assert!(t.is_empty());
    let mut out = Vec::new();
    FieldValue::from_field_array(Vec::new()).encode(&mut out);
    assert_eq!(out, vec![b'A', 0, 0, 0, 0]);
}

#[test]
fn field_array_encoding() {
    let arr = vec![FieldValue::from_u8(1), FieldValue::from_u8(2), FieldValue::from_u8(3)];
    let mut out = Vec::new();
    amqp_proto::encode_field_array(&arr, &mut out);
    assert_eq!(out, vec![0, 0, 0, 6, b'B', 1, b'B', 2, b'B', 3]);
    let (_, back) = amqp_proto::decode_field_array(&out).unwrap();
    assert_eq!(back.len(), 3);
}

#[test]
fn field_array_partial_value_is_decode_error() {
    let bytes = vec![0u8, 0, 0, 2, b'u', 1];
    assert_eq!(
        amqp_proto::decode_field_array(&bytes).unwrap_err(),
        FrameDecodeErr::DecodeError(DecodeContext::FieldArray)
    );
}

#[test]
fn field_table_partial_entry_is_decode_error() {
    let bytes = vec![0u8, 0, 0, 3, 1, b'k', b'i'];
    assert_eq!(
        FieldTable::decode(&bytes).unwrap_err(),
        FrameDecodeErr::DecodeError(DecodeContext::FieldTable)
    );
}

#[test]
fn nested_tables_depth_eight_round_trip() {
    let mut v = FieldValue::from_i16(-2);
    for _ in 0..8 {
        let mut t = FieldTable::new();
        t.insert(name("n"), v);
        v = FieldValue::from_field_table(t);
    }
    let mut out = Vec::new();
    v.encode(&mut out);
    let (rest, back) = FieldValue::decode(&out).unwrap();
    assert!(rest.is_empty());
    let mut again = Vec::new();
    back.encode(&mut again);
    assert_eq!(again, out);
}

#[test]
fn scalar_field_values_encode() {
    let cases: Vec<(FieldValue, Vec<u8>)> = vec![
        (FieldValue::from_bool(false), vec![b't', 0]),
        (FieldValue::from_u8(12), vec![b'B', 12]),
        (FieldValue::from_i8(12), vec![b'b', 12]),
        (FieldValue::from_i16(0x1234), vec![b's', 0x12, 0x34]),
        (FieldValue::from_u16(0x1234), vec![b'u', 0x12, 0x34]),
        (FieldValue::from_u32(0x12345678), vec![b'i', 0x12, 0x34, 0x56, 0x78]),
        (FieldValue::from_i32(0x12345678), vec![b'I', 0x12, 0x34, 0x56, 0x78]),
        (FieldValue::from_u64(0x12345678), vec![b'L', 0, 0, 0, 0, 0x12, 0x34, 0x56, 0x78]),
        (FieldValue::from_i64(0x12345678), vec![b'l', 0, 0, 0, 0, 0x12, 0x34, 0x56, 0x78]),
        (FieldValue::from_timestamp(0x12345678), vec![b'T', 0, 0, 0, 0, 0x12, 0x34, 0x56, 0x78]),
        (FieldValue::from_decimal(Decimal::new(1, 5)), vec![b'D', 1, 0, 0, 0, 5]),
        (FieldValue::from_void(), vec![b'V']),
        (FieldValue::from_bytes_array(LongStr::with_bytes(b"ab").unwrap()), vec![b'x', 0, 0, 0, 2, b'a', b'b']),
    ];
    for (v, bytes) in cases {
        let mut out = Vec::new();
        v.encode(&mut out);
        assert_eq!(out, bytes);
        let (rest, back) = FieldValue::decode(&bytes).unwrap();
        assert!(rest.is_empty());
        let mut again = Vec::new();
        back.encode(&mut again);
        assert_eq!(again, bytes);
    }
}

#[test]
fn float_bits_round_trip() {
    let v = FieldValue::from_f32_bits(123.456f32.to_bits());
    let mut out = Vec::new();
    v.encode(&mut out);
    let mut expect = vec![b'f'];
    expect.extend_from_slice(&123.456f32.to_bits().to_be_bytes());
    assert_eq!(out, expect);
    match FieldValue::decode(&out).unwrap().1 {
        FieldValue::F32(bits) => assert_eq!(f32::from_bits(bits), 123.456f32),
        other => panic!("unexpected {:?}", other),
    }
    let v = FieldValue::from_f64_bits(123.456f64.to_bits());
    let mut out = Vec::new();
    v.encode(&mut out);
    assert_eq!(out[0], b'd');
    assert_eq!(&out[1..], &123.456f64.to_bits().to_be_bytes());
}

#[test]
fn bytes_array_keeps_its_tag() {
    let bytes = vec![b'x', 0, 0, 0, 1, b'z'];
    let (_, v) = FieldValue::decode(&bytes).unwrap();
    assert!(matches!(v, FieldValue::BytesArray(_)));
}

#[test]
fn boolean_nonzero_is_true() {
    let (_, v) = FieldValue::decode(&[b't', 7]).unwrap();
    assert!(matches!(v, FieldValue::Boolean(true)));
}

#[test]
fn unknown_field_tag_is_syntax_error() {
    assert_eq!(
        FieldValue::decode(&[b'Z', 0]).unwrap_err(),
        FrameDecodeErr::SyntaxError(SyntaxErrorKind::UnknownFieldKind)
    );
}

#[test]
fn field_value_needs_more_octets() {
    assert_eq!(FieldValue::decode(&[b'i', 0, 0]).unwrap_err(), FrameDecodeErr::Incomplete);
    assert_eq!(FieldValue::decode(&[]).unwrap_err(), FrameDecodeErr::Incomplete);
}

#[test]
fn short_str_length_limits() {
    let long = vec![b'a'; 256];
    assert_eq!(
        ShortStr::with_bytes(&long).unwrap_err(),
        FrameDecodeErr::SyntaxError(SyntaxErrorKind::ShortStrTooLong)
    );
    let ok = vec![b'a'; 255];
    let s = ShortStr::with_bytes(&ok).unwrap();
    let mut out = Vec::new();
    s.encode(&mut out);
    assert_eq!(out.len(), 256);
    assert_eq!(out[0], 255);
    let (rest, back) = ShortStr::decode(&out).unwrap();
    assert!(rest.is_empty());
    assert_eq!(back.to_string(), s.to_string());
}

#[test]
fn short_str_encoding() {
    let mut out = Vec::new();
    short("hello").encode(&mut out);
    assert_eq!(out, vec![5u8, 104, 101, 108, 108, 111]);
}

#[test]
fn lossy_utf8_replaces_invalid_octets() {
    let s = ShortStr::with_bytes(&[b'a', 0xff]).unwrap();
    assert_eq!(s.to_string(), "a\u{FFFD}");
    assert_eq!(s.len(), 4);
    let l = LongStr::with_bytes(&[0xff]).unwrap();
    assert_eq!(l.to_string(), "\u{FFFD}");
}

#[test]
fn long_str_declared_too_long_is_syntax_error() {
    let bytes = 65537u32.to_be_bytes();
    assert_eq!(
        LongStr::decode(&bytes).unwrap_err(),
        FrameDecodeErr::SyntaxError(SyntaxErrorKind::LongStrTooLong)
    );
    assert!(LongStr::with_bytes(&vec![b'a'; 65537]).is_err());
    assert!(LongStr::with_bytes(&vec![b'a'; 65536]).is_ok());
}

#[test]
fn long_str_encoding() {
    let mut out = Vec::new();
    LongStr::with_bytes(b"hello").unwrap().encode(&mut out);
    assert_eq!(out, vec![0, 0, 0, 5u8, 104, 101, 108, 108, 111]);
}

#[test]
fn field_name_first_octet() {
    assert_eq!(
        FieldName::with_bytes(b"2ello").unwrap_err(),
        FrameDecodeErr::SyntaxError(SyntaxErrorKind::FieldNameStart)
    );
    assert_eq!(
        FieldName::with_bytes(b"").unwrap_err(),
        FrameDecodeErr::SyntaxError(SyntaxErrorKind::FieldNameStart)
    );
    assert_eq!(FieldName::with_bytes(b"$ello").unwrap().to_string(), "$ello");
    assert!(FieldName::with_bytes(b"#x").is_ok());
    assert!(FieldName::with_bytes(b"Zx").is_ok());
    assert_eq!(
        FieldName::decode(&[2u8, b'1', b'a']).unwrap_err(),
        FrameDecodeErr::SyntaxError(SyntaxErrorKind::FieldNameStart)
    );
}

#[test]
fn field_name_too_long() {
    assert_eq!(
        FieldName::with_bytes(&vec![b'a'; 129]).unwrap_err(),
        FrameDecodeErr::SyntaxError(SyntaxErrorKind::FieldNameTooLong)
    );
    assert_eq!(
        FieldName::decode(&[129u8]).unwrap_err(),
        FrameDecodeErr::SyntaxError(SyntaxErrorKind::FieldNameTooLong)
    );
    assert_eq!(FieldName::decode(&[5u8, 104, 101]).unwrap_err(), FrameDecodeErr::Incomplete);
}

#[test]
fn frame_terminator_must_be_ce() {
    let mut input = frame_bytes(4, 0, &[]);
    *input.last_mut().unwrap() = 0xCD;
    assert_eq!(
        Frame::decode(&input).unwrap_err(),
        FrameDecodeErr::SyntaxError(SyntaxErrorKind::FrameEnd)
    );
}

#[test]
fn basic_properties_selected_flags() {
    let mut p = BasicProperties::new();
    p.set_content_type(short("text/plain"));
    p.set_timestamp(1000);
    assert_eq!(p.flags(), 0x8040);
    let mut out = Vec::new();
    p.encode(&mut out);
    let mut expect = vec![0x00u8, 0x00, 0x80, 0x40, 10];
    expect.extend_from_slice(b"text/plain");
    expect.extend_from_slice(&1000u64.to_be_bytes());
    assert_eq!(out, expect);
    let (rest, back) = BasicProperties::decode(&out).unwrap();
    assert!(rest.is_empty());
    assert_eq!(back.content_type.as_ref().unwrap().to_string(), "text/plain");
    assert_eq!(back.timestamp, Some(1000));
    assert!(back.priority.is_none());
    assert!(back.headers.is_none());
}

#[test]
fn content_header_frame_round_trip() {
    let mut p = BasicProperties::new();
    p.set_delivery_mode(2);
    let frame = Frame {
        channel: 3,
        payload: Payload::ContentHeader(amqp_proto::ContentHeaderPayload {
            weight: 0,
            body_size: 11,
            properties: Property::Basic(p),
        }),
    };
    let mut out = Vec::new();
    frame.encode(&mut out);
    let (rest, back) = Frame::decode(&out).unwrap();
    assert!(rest.is_empty());
    match back.payload {
        Payload::ContentHeader(h) => {
            assert_eq!(h.class(), Class::Basic);
            assert_eq!(h.body_size, 11);
            match h.properties {
                Property::Basic(bp) => assert_eq!(bp.delivery_mode, Some(2)),
                other => panic!("unexpected {:?}", other),
            }
        }
        other => panic!("unexpected {:?}", other),
    }
}

#[test]
fn body_frame_is_verbatim() {
    let input = frame_bytes(3, 5, b"hello world");
    let (_, frame) = Frame::decode(&input).unwrap();
    match &frame.payload {
        Payload::ContentBody(b) => assert_eq!(b, b"hello world"),
        other => panic!("unexpected {:?}", other),
    }
}

#[test]
fn exchange_unbind_ok_uses_id_51() {
    let input = frame_bytes(1, 1, &[0, 40, 0, 51]);
    let (_, frame) = Frame::decode(&input).unwrap();
    match &frame.payload {
        Payload::Method(m) => {
            assert!(matches!(m.args, Arguments::ExchangeUnbindOk(_)));
            assert_eq!(m.method(), Method::Exchange(ExchangeMethod::UnbindOk));
        }
        other => panic!("unexpected {:?}", other),
    }
    let input = frame_bytes(1, 1, &[0, 40, 0, 41]);
    assert_eq!(
        Frame::decode(&input).unwrap_err(),
        FrameDecodeErr::SyntaxError(SyntaxErrorKind::UnknownMethod)
    );
    let mut out = Vec::new();
    ExchangeUnbindOk.encode(&mut out);
    assert!(out.is_empty());
}

#[test]
fn unknown_class_is_syntax_error() {
    let input = frame_bytes(1, 1, &[0, 11, 0, 10]);
    assert_eq!(
        Frame::decode(&input).unwrap_err(),
        FrameDecodeErr::SyntaxError(SyntaxErrorKind::UnknownClass)
    );
    assert_eq!(Class::from_u16(11), Class::Unknown);
    assert_eq!(Class::from_u16(85), Class::Confirm);
    assert_eq!(Class::Tx.class_id(), 90);
}

#[test]
fn basic_consume_layout() {
    let mut args = FieldTable::new();
    args.insert(name("x"), FieldValue::from_bool(true));
    let c = BasicConsume {
        ticket: 1,
        queue_name: short("q"),
        consumer_tag: short("t"),
        no_local: false,
        no_ack: true,
        exclusive: false,
        no_wait: true,
        args,
    };
    let mut out = Vec::new();
    c.encode(&mut out);
    assert_eq!(out, vec![0, 1, 1, b'q', 1, b't', 0b1010, 0, 0, 0, 4, 1, b'x', b't', 1]);
    let (rest, back) = BasicConsume::decode(&out).unwrap();
    assert!(rest.is_empty());
    assert!(back.no_ack && back.no_wait && !back.no_local && !back.exclusive);
    assert_eq!(back.queue_name.to_string(), "q");
}

#[test]
fn basic_nack_flags_ignore_high_bits() {
    let mut bytes = 7u64.to_be_bytes().to_vec();
    bytes.push(0xfe);
    let (_, n) = BasicNack::decode(&bytes).unwrap();
    assert_eq!(n.delivery_tag, 7);
    assert!(!n.multiple);
    assert!(n.requeue);
    let mut out = Vec::new();
    n.encode(&mut out);
    assert_eq!(out[8], 0b10);
}

#[test]
fn access_request_filler() {
    let r = AccessRequest { realm: short("/data") };
    let mut out = Vec::new();
    r.encode(&mut out);
    assert_eq!(out, vec![5, b'/', b'd', b'a', b't', b'a', 0]);
    let (rest, back) = AccessRequest::decode(&[1, b'r', 0x55, 9]).unwrap();
    assert_eq!(rest, &[9]);
    assert_eq!(back.realm.to_string(), "r");
}

#[test]
fn connection_tune_round_trip_in_frame() {
    let frame = Frame {
        channel: 0,
        payload: Payload::Method(MethodPayload {
            args: Arguments::ConnectionTune(ConnectionTune { channel_max: 2047, frame_max: 131072, heartbeat: 60 }),
        }),
    };
    let mut out = Vec::new();
    frame.encode(&mut out);
    assert_eq!(&out[..7], &[1, 0, 0, 0, 0, 0, 12]);
    assert_eq!(&out[7..11], &[0, 10, 0, 30]);
    assert_eq!(*out.last().unwrap(), 0xce);
    let (_, back) = Frame::decode(&out).unwrap();
    match back.payload {
        Payload::Method(m) => match m.args {
            Arguments::ConnectionTune(t) => {
                assert_eq!(t.channel_max, 2047);
                assert_eq!(t.frame_max, 131072);
                assert_eq!(t.heartbeat, 60);
            }
            other => panic!("unexpected {:?}", other),
        },
        other => panic!("unexpected {:?}", other),
    }
}

#[test]
fn codec_emits_header_then_frames() {
    let mut codec = FrameCodec::new();
    let mut stream = vec![0x41u8, 0x4D, 0x51, 0x50, 0x00, 0x00, 0x09, 0x01];
    stream.extend(frame_bytes(4, 0, &[]));
    let (n, _) = codec.decode(&stream).unwrap().unwrap();
    assert_eq!(n, 8);
    let (n, item) = codec.decode(&stream[8..]).unwrap().unwrap();
    assert_eq!(n, 8);
    assert!(matches!(item, DecodedFrame::AmqpFrame(Frame { payload: Payload::Heartbeat(HeartbeatPayload), .. })));
}

#[test]
fn method_ids_and_reply_codes() {
    assert_eq!(Method::Exchange(ExchangeMethod::UnbindOk).method_id(), 51);
    assert_eq!(Method::get_method_type(Class::Exchange, 41).unwrap_err(), FrameDecodeErr::SyntaxError(SyntaxErrorKind::UnknownMethod));
    assert_eq!(Method::get_method_type(Class::Unknown, 10).unwrap_err(), FrameDecodeErr::SyntaxError(SyntaxErrorKind::UnknownClass));
    assert_eq!(AmqpErrorKind::ReplySuccess.code(), 200);
    assert_eq!(AmqpErrorKind::InternalError.code(), 541);
    assert_eq!(AmqpErrorKind::from_code(404), Some(AmqpErrorKind::NotFound));
    assert_eq!(AmqpErrorKind::from_code(999), None);
}
