use websocket_rs::decode::{decode_frame, get_mask, get_payload, get_payload_len, Decoded};
use websocket_rs::encode::{add_payload, encode_fin, encode_length, encode_opcode};
use websocket_rs::error::FrameError;
use websocket_rs::frame::{get_opcode, unmask_payload, Frame, Opcode, Role};

#[test]
fn it_parse_basic_len_correctly() {
    // This frame carry: Hello
    let buffer = [129, 133, 166, 51, 46, 40, 238, 86, 66, 68, 201];
    let len = get_payload_len(&buffer);
    assert_eq!(len, 5)
}

#[test]
fn it_parse_basic_len_correctly_double_size() {
    // The following string is the payload. Length = 128
    // Lorem ipsum dolor sit amet, consectetuer adipiscing elit. Aenean commodo ligula eget dolor. Aenean massa. Cum sociis natoque pe
    let buffer = [
        129, 254, 0, 128, 234, 188, 150, 161, 166, 211, 228, 196, 135, 156, 255, 209, 153, 201,
        251, 129, 142, 211, 250, 206, 152, 156, 229, 200, 158, 156, 247, 204, 143, 200, 186, 129,
        137, 211, 248, 210, 143, 223, 226, 196, 158, 201, 243, 211, 202, 221, 242, 200, 154, 213,
        229, 194, 131, 210, 241, 129, 143, 208, 255, 213, 196, 156, 215, 196, 132, 217, 247, 207,
        202, 223, 249, 204, 135, 211, 242, 206, 202, 208, 255, 198, 159, 208, 247, 129, 143, 219,
        243, 213, 202, 216, 249, 205, 133, 206, 184, 129, 171, 217, 248, 196, 139, 210, 182, 204,
        139, 207, 229, 192, 196, 156, 213, 212, 135, 156, 229, 206, 137, 213, 255, 210, 202, 210,
        247, 213, 133, 205, 227, 196, 202, 204, 247, 202,
    ];

    let len = get_payload_len(&buffer);
    assert_eq!(len, 128)
}

#[test]
fn it_parse_basic_len_correctly_double_size_large() {
    // The following string is the payload. Length = 35000 sent by postman.
    let buffer = [129, 254, 136, 184, 10, 8, 221, 131, 70, 103, 175, 230];
    let expected = 0b10001000_00000000 + 0b10111000;
    let len = get_payload_len(&buffer);
    assert_eq!(len, expected);
    assert_eq!(len, 35000);
}

#[test]
fn it_parse_basic_len_correctly_big_size() {
    let buffer = [129, 255, 0, 0, 0, 0, 0, 1, 136, 184, 175, 230];
    let expected = 0b1_00000000_00000000 + 0b10001000_00000000 + 0b10111000;
    let len = get_payload_len(&buffer);
    assert_eq!(len, expected);
}

#[test]
fn it_get_mask() {
    let buffer = [129, 133, 166, 51, 46, 40, 238, 86, 66, 68, 201];
    let expected = [166, 51, 46, 40];
    let mask = get_mask(&buffer);
    test_mask(mask, &expected)
}

fn test_mask(mask: &[u8], expected: &[u8]) {
    for (i, value) in expected.iter().enumerate() {
        assert_eq!(*value, mask[i]);
    }
}

#[test]
fn it_get_mask_double() {
    let buffer = [129, 254, 166, 51, 46, 40, 238, 86, 66, 68, 201];
    let expected = [46, 40, 238, 86];
    let mask = get_mask(&buffer);
    test_mask(mask, &expected)
}

#[test]
fn it_get_mask_big() {
    let buffer = [129, 255, 0, 0, 46, 40, 238, 86, 66, 68, 201, 100, 20, 32];
    let expected = [201, 100, 20, 32];
    let mask = get_mask(&buffer);
    test_mask(mask, &expected)
}

#[test]
fn it_parse_a_basic_message() {
    // This frame carry: Hello
    let buffer = [129, 133, 166, 51, 46, 40, 238, 86, 66, 68, 201];
    let payload = get_payload(&buffer).unwrap();
    assert_eq!(payload.as_str(), "Hello")
}

#[test]
fn unmasking_recovers_the_payload() {
    let masked = [238, 86, 66, 68, 201];
    let mask = [166, 51, 46, 40];
    let clear = unmask_payload(&masked, &mask);
    assert_eq!(clear, b"Hello".to_vec());
    let remasked = unmask_payload(clear.as_slice(), &mask);
    assert_eq!(remasked, masked.to_vec());
}

#[test]
fn fin_and_opcode_make_a_text_header() {
    let mut frame: Vec<u8> = Vec::new();
    encode_fin(&mut frame);
    encode_opcode(&mut frame);
    assert_eq!(frame, vec![0x81]);
}

#[test]
fn short_lengths_take_one_byte() {
    let mut frame: Vec<u8> = Vec::new();
    encode_length(&[7u8; 5], &mut frame);
    assert_eq!(frame, vec![5]);
    let mut frame = Vec::new();
    encode_length(&[7u8; 125], &mut frame);
    assert_eq!(frame, vec![125]);
}

#[test]
fn middle_lengths_take_sixteen_bits() {
    let mut frame: Vec<u8> = Vec::new();
    encode_length(&[7u8; 126], &mut frame);
    assert_eq!(frame, vec![126, 0, 126]);
    let mut frame = Vec::new();
    encode_length(&vec![7u8; 65535], &mut frame);
    assert_eq!(frame, vec![126, 255, 255]);
}

#[test]
fn large_lengths_take_sixty_four_bits() {
    let mut frame: Vec<u8> = Vec::new();
    encode_length(&vec![7u8; 65536], &mut frame);
    assert_eq!(frame, vec![127, 0, 0, 0, 0, 0, 1, 0, 0]);
}

#[test]
fn empty_payload_encodes_and_decodes() {
    let f = Frame { fin: true, opcode: Opcode::Text, mask: None, payload: Vec::new() };
    let wire = websocket_rs::encode::encode_frame(&f);
    assert_eq!(wire, vec![0x81, 0]);
    match decode_frame(&wire, Role::Client) {
        Decoded::Complete(g, used) => {
            assert_eq!(used, 2);
            assert!(g.fin);
            assert_eq!(g.payload.len(), 0);
        }
        _ => panic!("expected a complete frame"),
    }
}

#[test]
fn length_boundaries_round_trip() {
    for &n in &[0usize, 125, 126, 65535, 65536] {
        let f = Frame {
            fin: true,
            opcode: Opcode::Binary,
            mask: None,
            payload: vec![0xABu8; n],
        };
        let wire = websocket_rs::encode::encode_frame(&f);
        let expected_header = if n < 126 {
            2
        } else if n <= 65535 {
            4
        } else {
            10
        };
        assert_eq!(wire.len(), expected_header + n);
        match decode_frame(&wire, Role::Client) {
            Decoded::Complete(g, used) => {
                assert_eq!(used, wire.len());
                assert_eq!(g.payload.len(), n);
                assert_eq!(g.payload, f.payload);
            }
            _ => panic!("expected a complete frame for length {}", n),
        }
    }
}

#[test]
fn add_payload_appends_bytes() {
    let mut frame: Vec<u8> = vec![0x81, 3];
    add_payload(&mut frame, b"abc");
    assert_eq!(frame, vec![0x81, 3, 97, 98, 99]);
}

#[test]
fn reserved_bits_are_rejected() {
    // 0xC1: FIN plus a reserved bit, Text opcode.
    let buffer = [0xC1, 0];
    match decode_frame(&buffer, Role::Client) {
        Decoded::Invalid(e) => assert_eq!(e, FrameError::ReservedBitsSet),
        _ => panic!("expected a reserved-bits error"),
    }
}

#[test]
fn forbidden_mask_bit_is_rejected() {
    // A masked frame reaching a client, and an unmasked one reaching
    // a server.
    let masked = [129, 133, 166, 51, 46, 40, 238, 86, 66, 68, 201];
    match decode_frame(&masked, Role::Client) {
        Decoded::Invalid(e) => assert_eq!(e, FrameError::ForbiddenMaskBit),
        _ => panic!("expected a mask-bit error"),
    }
    let unmasked = [0x81, 1, 65];
    match decode_frame(&unmasked, Role::Server) {
        Decoded::Invalid(e) => assert_eq!(e, FrameError::ForbiddenMaskBit),
        _ => panic!("expected a mask-bit error"),
    }
}

#[test]
fn oversized_length_field_is_rejected() {
    // The 64-bit length's high bit is set.
    let buffer = [0x81, 255, 128, 0, 0, 0, 0, 0, 0, 0];
    match decode_frame(&buffer, Role::Server) {
        Decoded::Invalid(e) => assert_eq!(e, FrameError::PayloadTooLarge),
        _ => panic!("expected a too-large error"),
    }
}

#[test]
fn fragmented_control_frame_is_rejected() {
    // A Ping with FIN clear.
    let buffer = [0x09, 0];
    match decode_frame(&buffer, Role::Client) {
        Decoded::Invalid(e) => assert_eq!(e, FrameError::FragmentedControlFrame),
        _ => panic!("expected a fragmented-control error"),
    }
}

#[test]
fn oversized_control_frame_is_rejected() {
    // A Ping announcing 126 payload bytes.
    let buffer = [0x89, 126, 0, 126];
    match decode_frame(&buffer, Role::Client) {
        Decoded::Invalid(e) => assert_eq!(e, FrameError::OversizedControlFrame),
        _ => panic!("expected an oversized-control error"),
    }
}

#[test]
fn short_buffers_ask_for_more() {
    let full = [129u8, 133, 166, 51, 46, 40, 238, 86, 66, 68, 201];
    for cut in 0..full.len() {
        match decode_frame(&full[..cut], Role::Server) {
            Decoded::Incomplete => {}
            _ => panic!("a {}-byte prefix should be incomplete", cut),
        }
    }
}

#[test]
fn get_payload_reports_each_failure() {
    // Too short to be a frame.
    assert_eq!(get_payload(&[129]), Err(FrameError::IncompleteFrame));
    // A whole Binary frame is not a Text payload.
    let binary = [130, 129, 0, 0, 0, 0, 17];
    assert_eq!(get_payload(&binary), Err(FrameError::UnsupportedOpcode));
    // Invalid UTF-8 after unmasking: 0xFF ^ 0 = 0xFF.
    let bad_text = [129, 129, 0, 0, 0, 0, 255];
    assert_eq!(get_payload(&bad_text), Err(FrameError::InvalidUtf8));
}

#[test]
fn opcodes_map_to_their_nibbles() {
    assert_eq!(get_opcode(0x80), Opcode::Continuation);
    assert_eq!(get_opcode(0x81), Opcode::Text);
    assert_eq!(get_opcode(0x82), Opcode::Binary);
    assert_eq!(get_opcode(0x88), Opcode::Close);
    assert_eq!(get_opcode(0x89), Opcode::Ping);
    assert_eq!(get_opcode(0x8A), Opcode::Pong);
    assert_eq!(get_opcode(0x83), Opcode::Reserved(3));
}
