use adb_proxy::auth::{
    accept_auth, auth_service, codes_match, generate_pair_code, pair_code_of, parse_auth_service,
    read_auth_reply, validate_pair_code, write_auth,
};
use adb_proxy::fault::IoKind;
use adb_proxy::ipc::{
    abstract_path, decode_message, encode_message, frame_len, frame_parts, read_frame, read_message,
    sanitized_to_snapshot, write_frame, write_message, Decoded, IpcMessage, MsgType, OpenResult,
    RegisterAgent, SanitizedDevice, StreamClose, PROTOCOL_VERSION,
};
use adb_proxy::octets::{lossy_text, utf8_text};
use adb_proxy::protocol::{
    encode_hex4, parse_hex4, read_okay_payload, read_packet, read_status, write_fail, write_okay,
    write_okay_payload, write_packet, write_service, ByteReader,
};

#[test]
fn generate_has_correct_shape() {
    let code = generate_pair_code();
    assert!(validate_pair_code(&code).is_ok());
}

#[test]
fn reject_bad_codes() {
    assert!(validate_pair_code("SHORT").is_err());
    assert!(validate_pair_code("abcd1234").is_err());
    assert!(validate_pair_code("ABCD12-4").is_err());
    assert!(validate_pair_code("ABCD1234").is_ok());
}

#[test]
fn parse_auth() {
    assert_eq!(parse_auth_service("auth:ABCD1234").unwrap(), "ABCD1234");
    assert!(parse_auth_service("host:devices").is_err());
}

#[test]
fn roundtrip_packet() {
    let mut buf = Vec::new();
    write_packet(&mut buf, b"host:devices");
    assert_eq!(&buf[..4], b"000c");
    assert_eq!(&buf[4..], b"host:devices");

    let mut reader = ByteReader::new(&buf[..]);
    let payload = read_packet(&mut reader).unwrap();
    assert_eq!(payload, b"host:devices");
}

#[test]
fn fail_includes_reason() {
    let mut buf = Vec::new();
    write_fail(&mut buf, "no devices");
    assert_eq!(&buf[..4], b"FAIL");
    assert_eq!(&buf[4..8], b"000a");
    assert_eq!(&buf[8..], b"no devices");
}

#[test]
fn pair_code_faults_are_told_apart() {
    assert_eq!(
        validate_pair_code("SHORT").unwrap_err(),
        "pair code must be 8 characters, got 5"
    );
    assert_eq!(
        validate_pair_code("abcd1234").unwrap_err(),
        "pair code must be alphanumeric A-Z0-9"
    );
    assert_eq!(
        validate_pair_code("ABCDEFG\u{e9}").unwrap_err(),
        "pair code must be 8 characters, got 9"
    );
    assert_eq!(
        parse_auth_service("host:devices").unwrap_err(),
        "expected auth:<pair-code> as first packet"
    );
    assert_eq!(auth_service("ABCD1234"), "auth:ABCD1234");
    assert!(codes_match("ABCD1234", "ABCD1234"));
    assert!(!codes_match("ABCD1234", "ABCD1235"));
    assert_eq!(pair_code_of(&vec![0, 25, 26, 35]), "AZ09");
}

#[test]
fn generated_codes_differ() {
    let codes: Vec<String> = (0..8).map(|_| generate_pair_code()).collect();
    assert!(codes.iter().any(|c| *c != codes[0]));
}

#[test]
fn handshakes_succeed_with_the_code_alone() {
    let mut sent = Vec::new();
    write_auth(&mut sent, "ABCD1234");
    assert_eq!(sent, b"000dauth:ABCD1234");
    let payload = read_packet(&mut ByteReader::new(&sent)).unwrap();
    let mut reply = Vec::new();
    assert!(accept_auth(Some(&payload), "ABCD1234", &mut reply));
    assert_eq!(reply, b"OKAY");
    assert!(read_auth_reply(&mut ByteReader::new(&reply)).is_ok());

    let mut reply = Vec::new();
    assert!(!accept_auth(Some(&payload), "ZZZZ9999", &mut reply));
    assert_eq!(reply, b"FAIL000cunauthorized");
    let err = read_auth_reply(&mut ByteReader::new(&reply)).unwrap_err();
    assert_eq!(err.kind, IoKind::PermissionDenied);
    assert_eq!(err.message, "unauthorized");

    let mut reply = Vec::new();
    assert!(!accept_auth(None, "ABCD1234", &mut reply));
    assert_eq!(reply, b"FAIL000cmissing auth");
    let mut reply = Vec::new();
    assert!(!accept_auth(Some(b"\xff"), "ABCD1234", &mut reply));
    assert_eq!(reply, b"FAIL0011invalid auth utf8");
    let err = read_auth_reply(&mut ByteReader::new(b"WHAT")).unwrap_err();
    assert_eq!(err.kind, IoKind::InvalidData);
    assert_eq!(err.message, "unexpected auth status: \"WHAT\"");
    let err = read_auth_reply(&mut ByteReader::new(b"\xff\xff\xff\xff")).unwrap_err();
    assert_eq!(err.message, "unexpected auth status: \"?\"");
}

#[test]
fn lengths_are_four_digits() {
    assert_eq!(encode_hex4(12), "000c");
    assert_eq!(encode_hex4(0xffff), "ffff");
    assert_eq!(encode_hex4(0x10000), "10000");
    assert_eq!(parse_hex4(b"00fF").unwrap(), 255);
    assert_eq!(parse_hex4(b"FFFF").unwrap(), 0xffff);
    assert_eq!(parse_hex4(b"+00c").unwrap_err(), "invalid hex4 length: +00c");
    assert_eq!(parse_hex4(b"00 c").unwrap_err(), "invalid hex4 length: 00 c");
    assert_eq!(parse_hex4("00\u{e9}".as_bytes().try_into().unwrap()).unwrap_err(), "invalid hex4 length: 00\u{e9}");
    assert_eq!(parse_hex4(b"zzzz").unwrap_err(), "invalid hex4 length: zzzz");
    assert_eq!(parse_hex4(b"\xff000").unwrap_err(), "hex4 is not utf8");
}

#[test]
fn packets_that_are_cut_short_are_not_taken() {
    let mut buf = Vec::new();
    write_packet(&mut buf, b"abc");
    for k in 0..buf.len() {
        let err = read_packet(&mut ByteReader::new(&buf[..k])).unwrap_err();
        assert_eq!(err.kind, IoKind::UnexpectedEof);
    }
    buf.extend_from_slice(b"rest");
    let mut r = ByteReader::new(&buf);
    assert_eq!(read_packet(&mut r).unwrap(), b"abc");
    assert_eq!(&r.buf[r.pos..], b"rest");
    let err = read_packet(&mut ByteReader::new(b"zzzz")).unwrap_err();
    assert_eq!(err.kind, IoKind::InvalidData);
}

#[test]
fn payloads_are_framed_with_their_status() {
    let mut buf = Vec::new();
    write_okay_payload(&mut buf, b"0029");
    assert_eq!(buf, b"OKAY00040029");
    assert_eq!(read_okay_payload(&mut ByteReader::new(&buf)).unwrap(), b"0029");
    let mut buf = Vec::new();
    write_fail(&mut buf, "no");
    let err = read_okay_payload(&mut ByteReader::new(&buf)).unwrap_err();
    assert_eq!(err.kind, IoKind::Other);
    assert_eq!(err.message, "no");
    let err = read_okay_payload(&mut ByteReader::new(b"HUH?")).unwrap_err();
    assert_eq!(err.message, "unexpected status: \"HUH?\"");
    let mut buf = Vec::new();
    write_okay(&mut buf);
    assert_eq!(&read_status(&mut ByteReader::new(&buf)).unwrap(), b"OKAY");
    let mut buf = Vec::new();
    write_service(&mut buf, "host:kill");
    assert_eq!(buf, b"0009host:kill");
}

#[test]
fn bytes_become_text() {
    assert_eq!(utf8_text("h\u{e9}".as_bytes()).as_deref(), Some("h\u{e9}"));
    assert_eq!(utf8_text(b"\xff"), None);
    assert_eq!(lossy_text(b"a\xffb"), "a\u{fffd}b");
    assert_eq!(lossy_text(b"plain"), "plain");
}

fn register_json(r: &RegisterAgent) -> Vec<u8> {
    let mut m = serde_json::Map::new();
    m.insert("version".into(), serde_json::Value::from(r.version));
    m.insert(
        "capabilities".into(),
        serde_json::Value::from(r.capabilities.clone()),
    );
    m.insert(
        "instance_token".into(),
        serde_json::Value::from(r.instance_token.clone()),
    );
    serde_json::to_vec(&serde_json::Value::Object(m)).unwrap()
}

#[test]
fn roundtrip_register_and_stream() {
    let mut buf = Vec::new();
    let reg = RegisterAgent {
        version: PROTOCOL_VERSION,
        capabilities: vec!["devices".into()],
        instance_token: "tok".into(),
    };
    let json = register_json(&reg);
    write_message(&mut buf, &IpcMessage::RegisterAgent(reg), Ok(json)).unwrap();
    write_message(
        &mut buf,
        &IpcMessage::StreamData {
            stream_id: 7,
            data: b"hello".to_vec(),
        },
        Ok(Vec::new()),
    )
    .unwrap();

    let mut cursor = ByteReader::new(&buf);
    match read_message(&mut cursor).unwrap() {
        Decoded::Json(MsgType::RegisterAgent, body) => {
            let r: serde_json::Value = serde_json::from_slice(&body).unwrap();
            assert_eq!(r["version"], PROTOCOL_VERSION);
            assert_eq!(r["instance_token"], "tok");
        }
        other => panic!("unexpected {other:?}"),
    }
    match read_message(&mut cursor).unwrap() {
        Decoded::Message(IpcMessage::StreamData { stream_id, data }) => {
            assert_eq!(stream_id, 7);
            assert_eq!(data, b"hello");
        }
        other => panic!("unexpected {other:?}"),
    }
}

fn sanitized() -> SanitizedDevice {
    SanitizedDevice {
        public_serial: "A".into(),
        upstream_serial: "A".into(),
        state: "device".into(),
        extras: String::new(),
        backend_name: "office".into(),
        route_id: "r1".into(),
    }
}

#[test]
fn sanitized_has_no_pair_code_field_in_json() {
    // The keys are the fields of the type itself, as its debug form shows them.
    let shown = format!("{:?}", sanitized());
    let fields = shown.split_once('{').unwrap().1.trim_end_matches('}');
    let mut m = serde_json::Map::new();
    for field in fields.split(", ") {
        let (key, value) = field.trim().split_once(": ").unwrap();
        m.insert(key.into(), serde_json::from_str(value).unwrap());
    }
    assert_eq!(m.len(), 6);
    assert_eq!(m["backend_name"], "office");
    let json = serde_json::to_string(&m).unwrap();
    assert!(!json.contains("pair"));
    assert!(json.contains("route_id"));
}

#[test]
fn reported_devices_become_private_entries() {
    let snap = sanitized_to_snapshot(&[sanitized()]);
    let d = &snap.devices[0];
    assert_eq!(d.public_serial, "A");
    assert_eq!(d.backend_name, "office");
    assert_eq!(d.backend_addr.to_string(), "127.0.0.1:0");
    assert_eq!(d.pair_code, None);
    assert_eq!(d.route_id.as_deref(), Some("r1"));
}

#[test]
fn message_kinds_have_their_bytes() {
    for v in 0..=255u8 {
        match MsgType::from_u8(v) {
            Some(t) => assert_eq!(t.as_u8(), v),
            None => assert!(v == 0 || v > 9),
        }
    }
    assert_eq!(MsgType::from_u8(1), Some(MsgType::RegisterAgent));
    assert_eq!(MsgType::from_u8(9), Some(MsgType::Pong));
}

#[test]
fn frames_are_length_kind_and_payload() {
    let mut buf = Vec::new();
    write_frame(&mut buf, MsgType::StreamClose, b"{}");
    assert_eq!(buf, [0, 0, 0, 3, 7, b'{', b'}']);
    for k in 0..buf.len() {
        let err = read_frame(&mut ByteReader::new(&buf[..k])).unwrap_err();
        assert_eq!(err.kind, IoKind::UnexpectedEof);
    }
    assert_eq!(frame_len(&[0, 0, 1, 2]).unwrap(), 258);
    assert_eq!(frame_len(&[0, 0, 0, 0]).unwrap_err().message, "empty IPC frame");
    assert_eq!(frame_len(&[1, 0, 0, 0]).unwrap(), 16 * 1024 * 1024);
    assert_eq!(
        frame_len(&[1, 0, 0, 1]).unwrap_err().message,
        "IPC frame too large: 16777217"
    );
    assert_eq!(frame_parts(&[42]).unwrap_err().message, "unknown IPC type 42");
    assert_eq!(
        decode_message(MsgType::StreamData, vec![0, 0, 1]).unwrap_err().message,
        "StreamData too short"
    );
}

#[test]
fn messages_without_json_are_decoded_whole() {
    for (msg, ty) in [
        (IpcMessage::Ping, MsgType::Ping),
        (IpcMessage::Pong, MsgType::Pong),
    ] {
        let (got, payload) = encode_message(&msg, Err("unused".into())).unwrap();
        assert_eq!(got, ty);
        assert!(payload.is_empty());
        assert!(matches!(
            decode_message(ty, payload).unwrap(),
            Decoded::Message(IpcMessage::Ping) | Decoded::Message(IpcMessage::Pong)
        ));
    }
    let close = IpcMessage::StreamClose(StreamClose {
        stream_id: 1,
        reason: "closed".into(),
    });
    let err = encode_message(&close, Err("bad json".into())).unwrap_err();
    assert_eq!(err.kind, IoKind::InvalidData);
    assert_eq!(err.message, "bad json");
    let open = IpcMessage::OpenResult(OpenResult {
        stream_id: 1,
        ok: true,
        fail_reason: None,
    });
    let mut buf = Vec::new();
    assert!(write_message(&mut buf, &open, Err("bad json".into())).is_err());
    assert!(buf.is_empty());
}

#[test]
fn abstract_names_must_fit() {
    assert_eq!(abstract_path("adb-hubd", 108).unwrap(), b"\0adb-hubd");
    let long = "x".repeat(107);
    assert_eq!(
        abstract_path(&long, 108).unwrap_err().message,
        "abstract socket name too long"
    );
    assert!(abstract_path(&long[..106], 108).is_ok());
}
