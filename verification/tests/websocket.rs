use bytes::Bytes;
use http::{HeaderMap, HeaderName, HeaderValue};
use oxihttp::error::ErrorKind;
use oxihttp::ws::{
    compute_accept_key, make_data_message, parse_close_frame, upgrade, validate_upgrade_request,
    Action, CloseFrame, Message, WebSocket,
};
use oxihttp::ws_frame::{
    read_frame, write_error, write_frame, write_frame_masked, Frame, FrameReader, Opcode, Outgoing,
    ReadStep, WritePiece,
};

fn wire(out: &Outgoing) -> Vec<u8> {
    let mut bytes = out.header.to_vec();
    bytes.extend_from_slice(&out.payload);
    bytes
}

fn frame(opcode: Opcode, fin: bool, payload: &[u8]) -> Frame {
    Frame {
        fin,
        opcode,
        payload: Bytes::copy_from_slice(payload),
    }
}

fn headers(list: &[(&'static str, &str)]) -> HeaderMap {
    let mut map = HeaderMap::new();
    for (name, value) in list {
        map.insert(
            HeaderName::from_static(name),
            HeaderValue::from_str(value).unwrap(),
        );
    }
    map
}

fn read_message(input: &[u8]) -> String {
    let err = read_frame(input).unwrap_err();
    assert_eq!(err.kind(), ErrorKind::Body);
    err.message().to_owned()
}

#[test]
fn opcodes_have_values() {
    for v in 0..=255u8 {
        match Opcode::from_u8(v) {
            Some(o) => assert_eq!(o.to_u8(), v),
            None => assert!(!matches!(v, 0 | 1 | 2 | 8 | 9 | 10)),
        }
    }
    assert!(Opcode::Close.is_control() && Opcode::Ping.is_control() && Opcode::Pong.is_control());
    assert!(!Opcode::Text.is_control() && !Opcode::Continuation.is_control());
}

#[test]
fn frames_from_the_standard() {
    // RFC 6455 §5.7.
    assert_eq!(
        wire(&write_frame(Opcode::Text, b"Hello", true)),
        b"\x81\x05Hello"
    );
    assert_eq!(
        wire(&write_frame_masked(
            Opcode::Text,
            b"Hello",
            true,
            [0x37, 0xfa, 0x21, 0x3d]
        )),
        b"\x81\x85\x37\xfa\x21\x3d\x7f\x9f\x4d\x51\x58"
    );
    let (f, n) = read_frame(b"\x81\x85\x37\xfa\x21\x3d\x7f\x9f\x4d\x51\x58rest").unwrap();
    assert_eq!((f.fin, f.opcode, &f.payload[..], n), (true, Opcode::Text, &b"Hello"[..], 11));
    let (f, n) = read_frame(b"\x01\x03Hel").unwrap();
    assert_eq!((f.fin, f.opcode, &f.payload[..], n), (false, Opcode::Text, &b"Hel"[..], 5));
}

#[test]
fn frames_come_back_at_every_length() {
    for len in [0usize, 1, 125, 126, 127, 255, 256, 65535, 65536, 70000] {
        let payload: Vec<u8> = (0..len).map(|i| (i % 251) as u8).collect();
        let mut bytes = wire(&write_frame(Opcode::Binary, &payload, false));
        let size = bytes.len();
        assert_eq!(size, len + if len <= 125 { 2 } else if len <= 65535 { 4 } else { 10 });
        bytes.push(0x77);
        let (f, n) = read_frame(&bytes).unwrap();
        assert_eq!((f.fin, f.opcode, n), (false, Opcode::Binary, size));
        assert_eq!(&f.payload[..], &payload[..]);
        let bytes = wire(&write_frame_masked(Opcode::Text, &payload, true, [1, 2, 3, 254]));
        let (f, n) = read_frame(&bytes).unwrap();
        assert_eq!((f.fin, f.opcode, n), (true, Opcode::Text, bytes.len()));
        assert_eq!(&f.payload[..], &payload[..]);
    }
}

#[test]
fn bad_frames_are_refused() {
    assert_eq!(
        read_message(b"\xc1\x00"),
        "WebSocket: reserved bits set without extension"
    );
    assert_eq!(read_message(b"\x83\x00"), "WebSocket: unknown opcode 0x3");
    assert_eq!(read_message(b"\x8f\x00"), "WebSocket: unknown opcode 0xf");
    let illegal = "WebSocket: illegal control frame (fragmented or oversized)";
    assert_eq!(read_message(b"\x09\x00"), illegal);
    assert_eq!(read_message(b"\x89\x7e\x00\x7e"), illegal);
    assert_eq!(
        read_message(b"\x82\x7f\x00\x00\x00\x00\x04\x00\x00\x01"),
        "WebSocket: payload too large (67108865 bytes, max 67108864)"
    );
    assert_eq!(
        read_message(b"\x82\x7f\xff\xff\xff\xff\xff\xff\xff\xff"),
        "WebSocket: payload too large (18446744073709551615 bytes, max 67108864)"
    );
}

#[test]
fn frames_that_end_early_are_reported() {
    assert_eq!(read_message(b""), "WebSocket: read header: early eof");
    assert_eq!(read_message(b"\x81"), "WebSocket: read header: early eof");
    assert_eq!(read_message(b"\x81\x7e\x01"), "WebSocket: read ext len16: early eof");
    assert_eq!(read_message(b"\x81\x7f\x00\x00"), "WebSocket: read ext len64: early eof");
    assert_eq!(read_message(b"\x81\x81\x01\x02"), "WebSocket: read mask key: early eof");
    assert_eq!(read_message(b"\x81\x05Hel"), "WebSocket: read payload: early eof");
}

#[test]
fn a_reader_asks_for_pieces() {
    let reader = FrameReader::new();
    assert_eq!(reader.needed(), 2);
    let reader = match reader.feed(vec![0x82, 0xfe]).unwrap() {
        ReadStep::More(r) => r,
        ReadStep::Done(_) => panic!("not done"),
    };
    assert_eq!(reader.needed(), 2);
    let reader = match reader.feed(vec![0x00, 0x80]).unwrap() {
        ReadStep::More(r) => r,
        ReadStep::Done(_) => panic!("not done"),
    };
    assert_eq!(reader.needed(), 4);
    assert_eq!(
        reader.read_error("reset").message(),
        "WebSocket: read mask key: reset"
    );
    let reader = match reader.feed(vec![9, 9, 9, 9]).unwrap() {
        ReadStep::More(r) => r,
        ReadStep::Done(_) => panic!("not done"),
    };
    assert_eq!(reader.needed(), 128);
    match reader.feed(vec![9; 128]).unwrap() {
        ReadStep::Done(f) => assert_eq!(&f.payload[..], &[0u8; 128][..]),
        ReadStep::More(_) => panic!("done"),
    }
}

#[test]
fn write_errors_name_the_piece() {
    let message = |piece, mask| write_error(piece, mask, "broken").message().to_owned();
    assert_eq!(message(WritePiece::Header, false), "WebSocket: write header: broken");
    assert_eq!(message(WritePiece::Payload, false), "WebSocket: write payload: broken");
    assert_eq!(message(WritePiece::Flush, false), "WebSocket: flush: broken");
    assert_eq!(message(WritePiece::Header, true), "WebSocket: write masked header: broken");
    assert_eq!(message(WritePiece::Payload, true), "WebSocket: write masked payload: broken");
    assert_eq!(message(WritePiece::Flush, true), "WebSocket: flush masked: broken");
}

fn deliver(ws: &mut WebSocket<()>, f: Frame) -> Message {
    match ws.recv(f).unwrap() {
        Action::Deliver(m) => m,
        other => panic!("unexpected {other:?}"),
    }
}

#[test]
fn messages_in_pieces_are_put_together() {
    let mut ws = WebSocket::new(());
    assert!(matches!(ws.recv(frame(Opcode::Text, false, b"Hel")).unwrap(), Action::Wait));
    // A ping may come between the pieces.
    assert!(matches!(
        ws.recv(frame(Opcode::Ping, true, b"p")).unwrap(),
        Action::Answer(_, Message::Ping(p)) if p == b"p"
    ));
    assert!(matches!(
        ws.recv(frame(Opcode::Continuation, false, b"lo \xc3")).unwrap(),
        Action::Wait
    ));
    assert_eq!(
        deliver(&mut ws, frame(Opcode::Continuation, true, b"\xa9")),
        Message::Text("Hello é".to_string())
    );
    assert_eq!(
        deliver(&mut ws, frame(Opcode::Binary, true, b"\xff")),
        Message::Binary(vec![0xff])
    );
}

#[test]
fn pings_and_pongs_come_anywhere() {
    let probes = [(Opcode::Ping, "a"), (Opcode::Pong, "b")];
    let mut ws = WebSocket::new(());
    for (opcode, payload) in probes {
        ws.recv(frame(opcode, true, payload.as_bytes())).unwrap();
    }
    ws.recv(frame(Opcode::Binary, false, b"1")).unwrap();
    for (opcode, payload) in probes {
        ws.recv(frame(opcode, true, payload.as_bytes())).unwrap();
    }
    assert_eq!(
        deliver(&mut ws, frame(Opcode::Continuation, true, b"2")),
        Message::Binary(b"12".to_vec())
    );
}

#[test]
fn frames_out_of_order_are_errors() {
    let mut ws = WebSocket::new(());
    ws.recv(frame(Opcode::Binary, false, b"x")).unwrap();
    let err = ws.recv(frame(Opcode::Text, true, b"y")).unwrap_err();
    assert_eq!(err.message(), "WebSocket: unexpected frame sequence");
    let mut ws = WebSocket::new(());
    let err = ws.recv(frame(Opcode::Continuation, true, b"y")).unwrap_err();
    assert_eq!(
        err.message(),
        "WebSocket: continuation frame without start frame"
    );
    let mut ws = WebSocket::new(());
    let err = ws.recv(frame(Opcode::Text, true, b"a\xff")).unwrap_err();
    assert_eq!(
        err.message(),
        "WebSocket: invalid UTF-8: invalid utf-8 sequence of 1 bytes from index 1"
    );
    let err = make_data_message(Opcode::Ping, vec![]).unwrap_err();
    assert_eq!(
        err.message(),
        "WebSocket: unexpected opcode in make_data_message"
    );
}

#[test]
fn a_ping_is_answered_with_a_pong() {
    let mut ws = WebSocket::new(());
    match ws.recv(frame(Opcode::Ping, true, b"abc")).unwrap() {
        Action::Answer(reply, message) => {
            assert_eq!(wire(&reply), b"\x8a\x03abc");
            assert_eq!(message, Message::Ping(b"abc".to_vec()));
            ws.answered(&message);
            assert!(!ws.is_closed());
        }
        other => panic!("unexpected {other:?}"),
    }
    assert_eq!(
        deliver(&mut ws, frame(Opcode::Pong, true, b"z")),
        Message::Pong(b"z".to_vec())
    );
}

#[test]
fn a_close_is_answered_once() {
    let mut ws = WebSocket::new(());
    match ws.recv(frame(Opcode::Close, true, b"\x03\xe8bye")).unwrap() {
        Action::Answer(reply, message) => {
            assert_eq!(wire(&reply), b"\x88\x05\x03\xe8bye");
            assert_eq!(
                message,
                Message::Close(Some(CloseFrame {
                    code: 1000,
                    reason: "bye".to_string()
                }))
            );
            assert!(!ws.is_closed());
            ws.answered(&message);
            assert!(ws.is_closed());
        }
        other => panic!("unexpected {other:?}"),
    }
    let mut ws = WebSocket::new(());
    assert_eq!(wire(&ws.close(1001, "away")), b"\x88\x06\x03\xe9away");
    assert!(!ws.is_closed());
    assert_eq!(
        deliver(&mut ws, frame(Opcode::Close, true, b"")),
        Message::Close(None)
    );
    assert!(ws.is_closed());
}

#[test]
fn a_closed_connection_is_silent() {
    let rest = || {
        vec![
            frame(Opcode::Ping, true, b"p"),
            frame(Opcode::Text, true, b"late"),
            frame(Opcode::Continuation, true, b"x"),
            frame(Opcode::Close, true, b""),
        ]
    };
    let mut ws = WebSocket::new(());
    match ws.recv(frame(Opcode::Close, true, b"\x03\xe8")).unwrap() {
        Action::Answer(_, message) => ws.answered(&message),
        _ => panic!("answer expected"),
    }
    assert!(ws.is_closed());
    for f in rest() {
        assert!(matches!(ws.recv(f), Ok(Action::Wait)));
    }
    let mut ws = WebSocket::new(());
    ws.send(Message::Close(None));
    assert!(ws.is_closed());
    for f in rest() {
        assert!(matches!(ws.recv(f), Ok(Action::Wait)));
    }
}

#[test]
fn sent_messages_are_received() {
    let messages = [
        Message::Text("héllo".to_string()),
        Message::Binary(vec![0, 255]),
        Message::Ping(vec![1]),
        Message::Pong(vec![]),
        Message::Close(None),
        Message::Close(Some(CloseFrame {
            code: 4321,
            reason: "é".to_string(),
        })),
    ];
    for message in messages {
        let mut sender = WebSocket::new(());
        let out = sender.send(message.clone());
        assert_eq!(sender.is_closed(), matches!(message, Message::Close(_)));
        let (f, _) = read_frame(&wire(&out)).unwrap();
        let mut receiver = WebSocket::new(());
        let received = match receiver.recv(f).unwrap() {
            Action::Deliver(m) => m,
            Action::Answer(_, m) => m,
            Action::Wait => panic!("message expected"),
        };
        assert_eq!(received, message);
    }
}

#[test]
fn a_socket_lends_its_stream() {
    let mut ws = WebSocket::new(vec![1, 2]);
    ws.stream().push(3);
    assert_eq!(ws.stream(), &vec![1, 2, 3]);
}

#[test]
fn close_payloads_are_read_leniently() {
    assert_eq!(parse_close_frame(b""), None);
    assert_eq!(parse_close_frame(b"\x03"), None);
    assert_eq!(
        parse_close_frame(b"\x03\xe8a\xffb"),
        Some(CloseFrame {
            code: 1000,
            reason: "a\u{fffd}b".to_string()
        })
    );
}

#[test]
fn the_accept_key_of_the_standard() {
    // RFC 6455 §1.3.
    assert_eq!(
        compute_accept_key("dGhlIHNhbXBsZSBub25jZQ=="),
        "s3pPLMBiTxaQ9kYGzzhZRbK+xOo="
    );
}

#[test]
fn an_upgrade_is_answered() {
    let map = headers(&[
        ("upgrade", "WebSocket"),
        ("sec-websocket-version", "13"),
        ("sec-websocket-key", "dGhlIHNhbXBsZSBub25jZQ=="),
    ]);
    assert_eq!(
        validate_upgrade_request(&map).unwrap(),
        "dGhlIHNhbXBsZSBub25jZQ=="
    );
    let reply = upgrade(&map).unwrap();
    assert_eq!(reply.status, 101);
    assert!(reply.body.is_empty());
    assert_eq!(reply.headers.len(), 3);
    assert_eq!(reply.headers["upgrade"], "websocket");
    assert_eq!(reply.headers["connection"], "Upgrade");
    assert_eq!(
        reply.headers["sec-websocket-accept"],
        "s3pPLMBiTxaQ9kYGzzhZRbK+xOo="
    );
}

#[test]
fn other_requests_are_not_upgraded() {
    let message = |list: &[(&'static str, &str)]| {
        let err = upgrade(&headers(list)).unwrap_err();
        assert_eq!(err.kind(), ErrorKind::Body);
        err.message().to_owned()
    };
    assert_eq!(message(&[]), "WebSocket: missing Upgrade header");
    assert_eq!(
        message(&[("upgrade", "h2c")]),
        "WebSocket: Upgrade header is 'h2c', expected 'websocket'"
    );
    assert_eq!(
        message(&[("upgrade", "websocket")]),
        "WebSocket: missing Sec-WebSocket-Version header"
    );
    assert_eq!(
        message(&[("upgrade", "websocket"), ("sec-websocket-version", "8")]),
        "WebSocket: unsupported version '8', only version 13 is supported"
    );
    let missing = "WebSocket: missing Sec-WebSocket-Key header";
    assert_eq!(
        message(&[("upgrade", "websocket"), ("sec-websocket-version", "13")]),
        missing
    );
    assert_eq!(
        message(&[
            ("upgrade", "websocket"),
            ("sec-websocket-version", "13"),
            ("sec-websocket-key", "")
        ]),
        missing
    );
}
