use websocket_rs::encode::encode_frame;
use websocket_rs::error::FrameError;
use websocket_rs::frame::{Frame, Opcode, Role};
use websocket_rs::message::{encode_control, encode_message, Event, Message, MessageDecoder};

fn expect_text(event: Option<Event>) -> String {
    match event {
        Some(Event::Message(Message::Text(t))) => t,
        other => panic!("expected a text message, got {:?}", other),
    }
}

fn expect_binary(event: Option<Event>) -> Vec<u8> {
    match event {
        Some(Event::Message(Message::Binary(b))) => b,
        other => panic!("expected a binary message, got {:?}", other),
    }
}

#[test]
fn client_text_round_trips_to_server() {
    let wire = encode_message(&Message::Text(String::from("Hello")), Role::Client);
    let mut decoder = MessageDecoder::new(Role::Server);
    decoder.feed(&wire);
    let text = expect_text(decoder.next_event().unwrap());
    assert_eq!(text, "Hello");
}

#[test]
fn server_text_round_trips_to_client() {
    let wire = encode_message(&Message::Text(String::from("Hello")), Role::Server);
    let mut decoder = MessageDecoder::new(Role::Client);
    decoder.feed(&wire);
    let text = expect_text(decoder.next_event().unwrap());
    assert_eq!(text, "Hello");
}

#[test]
fn binary_round_trips_both_ways() {
    let payload = vec![0u8, 1, 2, 253, 254, 255];
    for &(sender, receiver) in &[(Role::Client, Role::Server), (Role::Server, Role::Client)] {
        let wire = encode_message(&Message::Binary(payload.clone()), sender);
        let mut decoder = MessageDecoder::new(receiver);
        decoder.feed(&wire);
        let bytes = expect_binary(decoder.next_event().unwrap());
        assert_eq!(bytes, payload);
    }
}

#[test]
fn length_boundaries_round_trip_as_messages() {
    for &n in &[0usize, 125, 126, 65535, 65536] {
        let wire = encode_message(&Message::Binary(vec![7u8; n]), Role::Client);
        let mut decoder = MessageDecoder::new(Role::Server);
        decoder.feed(&wire);
        let bytes = expect_binary(decoder.next_event().unwrap());
        assert_eq!(bytes.len(), n);
    }
}

#[test]
fn fragments_reassemble() {
    let first = Frame {
        fin: false,
        opcode: Opcode::Text,
        mask: None,
        payload: b"Hel".to_vec(),
    };
    let second = Frame {
        fin: true,
        opcode: Opcode::Continuation,
        mask: None,
        payload: b"lo".to_vec(),
    };
    let mut decoder = MessageDecoder::new(Role::Client);
    decoder.feed(&encode_frame(&first));
    decoder.feed(&encode_frame(&second));
    let text = expect_text(decoder.next_event().unwrap());
    assert_eq!(text, "Hello");
}

#[test]
fn control_frames_pass_through_an_open_run() {
    let first = Frame {
        fin: false,
        opcode: Opcode::Text,
        mask: None,
        payload: b"Hel".to_vec(),
    };
    let ping = encode_control(Opcode::Ping, b"stay", Role::Server);
    let second = Frame {
        fin: true,
        opcode: Opcode::Continuation,
        mask: None,
        payload: b"lo".to_vec(),
    };
    let mut decoder = MessageDecoder::new(Role::Client);
    decoder.feed(&encode_frame(&first));
    decoder.feed(&ping);
    decoder.feed(&encode_frame(&second));
    match decoder.next_event().unwrap() {
        Some(Event::Ping(p)) => assert_eq!(p, b"stay".to_vec()),
        other => panic!("expected the interleaved ping, got {:?}", other),
    }
    let text = expect_text(decoder.next_event().unwrap());
    assert_eq!(text, "Hello");
}

#[test]
fn one_byte_at_a_time_still_decodes() {
    let wire = encode_message(&Message::Text(String::from("Hello")), Role::Client);
    let mut decoder = MessageDecoder::new(Role::Server);
    for (i, byte) in wire.iter().enumerate() {
        let before_last = i + 1 < wire.len();
        decoder.feed(&[*byte]);
        if before_last {
            assert!(matches!(decoder.next_event(), Ok(None)));
        }
    }
    let text = expect_text(decoder.next_event().unwrap());
    assert_eq!(text, "Hello");
}

#[test]
fn invalid_utf8_in_a_text_message_is_rejected() {
    let frame = Frame {
        fin: true,
        opcode: Opcode::Text,
        mask: None,
        payload: vec![0xFF, 0xFE],
    };
    let mut decoder = MessageDecoder::new(Role::Client);
    decoder.feed(&encode_frame(&frame));
    assert_eq!(decoder.next_event(), Err(FrameError::InvalidUtf8));
}

#[test]
fn invalid_utf8_across_fragments_is_rejected() {
    // 0xC3 opens a two-byte sequence that the second fragment never
    // completes.
    let first = Frame {
        fin: false,
        opcode: Opcode::Text,
        mask: None,
        payload: vec![0xC3],
    };
    let second = Frame {
        fin: true,
        opcode: Opcode::Continuation,
        mask: None,
        payload: vec![0x41],
    };
    let mut decoder = MessageDecoder::new(Role::Client);
    decoder.feed(&encode_frame(&first));
    decoder.feed(&encode_frame(&second));
    assert_eq!(decoder.next_event(), Err(FrameError::InvalidUtf8));
}

#[test]
fn stray_continuation_is_rejected() {
    let stray = Frame {
        fin: true,
        opcode: Opcode::Continuation,
        mask: None,
        payload: b"lo".to_vec(),
    };
    let mut decoder = MessageDecoder::new(Role::Client);
    decoder.feed(&encode_frame(&stray));
    assert_eq!(decoder.next_event(), Err(FrameError::UnexpectedContinuation));
}

#[test]
fn new_data_frame_during_a_run_is_rejected() {
    let first = Frame {
        fin: false,
        opcode: Opcode::Text,
        mask: None,
        payload: b"Hel".to_vec(),
    };
    let intruder = Frame {
        fin: true,
        opcode: Opcode::Binary,
        mask: None,
        payload: b"!".to_vec(),
    };
    let mut decoder = MessageDecoder::new(Role::Client);
    decoder.feed(&encode_frame(&first));
    decoder.feed(&encode_frame(&intruder));
    assert_eq!(
        decoder.next_event(),
        Err(FrameError::DataFrameDuringFragmentation)
    );
}

#[test]
fn reserved_opcode_frame_is_rejected() {
    let odd = Frame {
        fin: true,
        opcode: Opcode::Reserved(3),
        mask: None,
        payload: Vec::new(),
    };
    let mut decoder = MessageDecoder::new(Role::Client);
    decoder.feed(&encode_frame(&odd));
    assert_eq!(decoder.next_event(), Err(FrameError::UnknownOpcode));
}

#[test]
fn close_and_pong_payloads_come_through() {
    let close = encode_control(Opcode::Close, &[3, 232], Role::Server);
    let pong = encode_control(Opcode::Pong, b"late", Role::Server);
    let mut decoder = MessageDecoder::new(Role::Client);
    decoder.feed(&close);
    decoder.feed(&pong);
    match decoder.next_event().unwrap() {
        Some(Event::Close(p)) => assert_eq!(p, vec![3, 232]),
        other => panic!("expected a close event, got {:?}", other),
    }
    match decoder.next_event().unwrap() {
        Some(Event::Pong(p)) => assert_eq!(p, b"late".to_vec()),
        other => panic!("expected a pong event, got {:?}", other),
    }
}

#[test]
fn leftover_handshake_bytes_are_decoded_first() {
    let wire = encode_message(&Message::Text(String::from("early")), Role::Client);
    let mut decoder = MessageDecoder::with_leftover(Role::Server, wire);
    let text = expect_text(decoder.next_event().unwrap());
    assert_eq!(text, "early");
}
