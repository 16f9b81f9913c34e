use ws_reactor::frame::{apply_mask, decode, DecodeError, Frame, Opcode, ProtocolError};

fn text(payload: &[u8], mask_key: Option<[u8; 4]>) -> Frame {
    Frame::new(Opcode::Text, payload.to_vec(), mask_key)
}

#[test]
fn decodes_unmasked_hello() {
    let bytes = [0x81, 0x05, 0x48, 0x65, 0x6c, 0x6c, 0x6f];
    let (frame, used) = decode(&bytes).unwrap();
    assert_eq!(used, 7);
    assert!(frame.fin);
    assert_eq!(frame.rsv, 0);
    assert_eq!(frame.opcode, Opcode::Text);
    assert_eq!(frame.mask_key, None);
    assert!(!frame.is_masked());
    assert_eq!(frame.payload_len(), 5);
    assert_eq!(frame.payload, b"Hello".to_vec());
}

#[test]
fn decodes_masked_hello() {
    let bytes = [0x81, 0x85, 0x37, 0xfa, 0x21, 0x3d, 0x7f, 0x9f, 0x4d, 0x51, 0x58];
    let (frame, used) = decode(&bytes).unwrap();
    assert_eq!(used, 11);
    assert!(frame.fin);
    assert_eq!(frame.opcode, Opcode::Text);
    assert_eq!(frame.mask_key, Some([0x37, 0xfa, 0x21, 0x3d]));
    assert!(frame.is_masked());
    assert_eq!(frame.payload, b"Hello".to_vec());
}

#[test]
fn encodes_unmasked_hello() {
    assert_eq!(text(b"Hello", None).encode(), vec![0x81, 0x05, 0x48, 0x65, 0x6c, 0x6c, 0x6f]);
}

#[test]
fn encodes_masked_hello() {
    assert_eq!(
        text(b"Hello", Some([0x37, 0xfa, 0x21, 0x3d])).encode(),
        vec![0x81, 0x85, 0x37, 0xfa, 0x21, 0x3d, 0x7f, 0x9f, 0x4d, 0x51, 0x58]
    );
}

#[test]
fn decodes_first_fragment_without_fin() {
    let bytes = [0x01, 0x03, 0x48, 0x65, 0x6c];
    let (frame, used) = decode(&bytes).unwrap();
    assert_eq!(used, 5);
    assert!(!frame.fin);
    assert_eq!(frame.opcode, Opcode::Text);
    assert_eq!(frame.payload, b"Hel".to_vec());
}

#[test]
fn decodes_continuation_with_fin() {
    let bytes = [0x80, 0x02, 0x6c, 0x6f];
    let (frame, _) = decode(&bytes).unwrap();
    assert!(frame.fin);
    assert_eq!(frame.opcode, Opcode::Continuation);
    assert_eq!(frame.payload, b"lo".to_vec());
}

#[test]
fn ping_without_data_is_valid() {
    let (frame, used) = decode(&[0x89, 0x00]).unwrap();
    assert_eq!(used, 2);
    assert_eq!(frame.opcode, Opcode::Ping);
    assert_eq!(frame.payload, Vec::<u8>::new());
    assert_eq!(frame.payload_len(), 0);
}

#[test]
fn masked_ping_without_data_takes_the_key() {
    let (frame, used) = decode(&[0x89, 0x80, 1, 2, 3, 4]).unwrap();
    assert_eq!(used, 6);
    assert_eq!(frame.mask_key, Some([1, 2, 3, 4]));
    assert_eq!(frame.payload, Vec::<u8>::new());
}

#[test]
fn close_frame_payload_is_opaque() {
    let bytes = [0x88, 0x06, 0x03, 0xe8, b'b', b'y', b'e', b'!'];
    let (frame, used) = decode(&bytes).unwrap();
    assert_eq!(used, 8);
    assert_eq!(frame.opcode, Opcode::Close);
    assert_eq!(frame.payload, vec![0x03, 0xe8, b'b', b'y', b'e', b'!']);
}

#[test]
fn pong_and_binary_are_recognised() {
    assert_eq!(decode(&[0x8a, 0x00]).unwrap().0.opcode, Opcode::Pong);
    assert_eq!(decode(&[0x82, 0x01, 0xff]).unwrap().0.opcode, Opcode::Binary);
}

#[test]
fn trailing_bytes_are_left_alone() {
    let bytes = [0x81, 0x01, b'a', 0x81, 0x01, b'b'];
    let (frame, used) = decode(&bytes).unwrap();
    assert_eq!(used, 3);
    assert_eq!(frame.payload, vec![b'a']);
}

#[test]
fn too_few_bytes_are_incomplete() {
    assert_eq!(decode(&[]), Err(DecodeError::IncompleteData));
    assert_eq!(decode(&[0x81]), Err(DecodeError::IncompleteData));
    assert_eq!(decode(&[0x81, 0x05, b'H', b'e']), Err(DecodeError::IncompleteData));
    assert_eq!(decode(&[0x81, 0x7e, 0x00]), Err(DecodeError::IncompleteData));
    assert_eq!(decode(&[0x81, 0x7f, 0, 0, 0, 0, 0, 0, 0]), Err(DecodeError::IncompleteData));
    assert_eq!(decode(&[0x81, 0x81, 1, 2, 3]), Err(DecodeError::IncompleteData));
    assert_eq!(decode(&[0x81, 0x81, 1, 2, 3, 4]), Err(DecodeError::IncompleteData));
}

#[test]
fn one_byte_with_reserved_bit_is_still_incomplete() {
    assert_eq!(decode(&[0xc1]), Err(DecodeError::IncompleteData));
}

#[test]
fn reserved_bits_are_a_protocol_error() {
    for first in [0xc1u8, 0xa1, 0x91, 0xf1, 0x41] {
        assert_eq!(
            decode(&[first, 0x00]),
            Err(DecodeError::Protocol(ProtocolError::ReservedBits))
        );
    }
}

#[test]
fn unknown_opcodes_are_a_protocol_error() {
    for code in [3u8, 4, 5, 6, 7, 11, 12, 13, 14, 15] {
        assert_eq!(
            decode(&[0x80 | code, 0x00]),
            Err(DecodeError::Protocol(ProtocolError::UnknownOpcode))
        );
    }
}

#[test]
fn reserved_bits_are_judged_before_the_opcode() {
    assert_eq!(decode(&[0xc3, 0x00]), Err(DecodeError::Protocol(ProtocolError::ReservedBits)));
}

#[test]
fn length_with_high_bit_is_a_protocol_error() {
    let bytes = [0x82, 0x7f, 0x80, 0, 0, 0, 0, 0, 0, 0];
    assert_eq!(decode(&bytes), Err(DecodeError::Protocol(ProtocolError::LengthOverflow)));
    let bytes = [0x82, 0x7f, 0xff, 0xff, 0xff, 0xff, 0xff, 0xff, 0xff, 0xff];
    assert_eq!(decode(&bytes), Err(DecodeError::Protocol(ProtocolError::LengthOverflow)));
}

#[test]
fn largest_length_is_incomplete_not_malformed() {
    let bytes = [0x82, 0x7f, 0x7f, 0xff, 0xff, 0xff, 0xff, 0xff, 0xff, 0xff];
    assert_eq!(decode(&bytes), Err(DecodeError::IncompleteData));
}

#[test]
fn extended_length_is_big_endian() {
    let mut bytes = vec![0x82, 0x7e, 0x01, 0x02];
    bytes.extend(vec![7u8; 0x0102]);
    let (frame, used) = decode(&bytes).unwrap();
    assert_eq!(used, 4 + 0x0102);
    assert_eq!(frame.payload.len(), 0x0102);

    let mut bytes = vec![0x82, 0x7f, 0, 0, 0, 0, 0, 0, 0x01, 0x03];
    bytes.extend(vec![9u8; 0x0103]);
    let (frame, used) = decode(&bytes).unwrap();
    assert_eq!(used, 10 + 0x0103);
    assert_eq!(frame.payload, vec![9u8; 0x0103]);
}

#[test]
fn longer_length_forms_than_needed_are_accepted() {
    let (frame, used) = decode(&[0x81, 0x7e, 0x00, 0x02, b'o', b'k']).unwrap();
    assert_eq!(used, 6);
    assert_eq!(frame.payload, b"ok".to_vec());
    let (frame, used) = decode(&[0x81, 0x7f, 0, 0, 0, 0, 0, 0, 0, 1, b'x']).unwrap();
    assert_eq!(used, 11);
    assert_eq!(frame.payload, b"x".to_vec());
}

fn length_field_of(len: usize, masked: bool) -> (Vec<u8>, usize) {
    let key = if masked { Some([0xde, 0xad, 0xbe, 0xef]) } else { None };
    let frame = Frame::new(Opcode::Binary, vec![0x5a; len], key);
    let bytes = frame.encode();
    let (back, used) = decode(&bytes).unwrap();
    assert_eq!(used, bytes.len());
    assert_eq!(back.payload_len(), len);
    assert_eq!(back, frame);
    let header = bytes.len() - len - if masked { 4 } else { 0 };
    (bytes[1..header].to_vec(), bytes.len())
}

#[test]
fn length_zero_uses_the_short_form() {
    assert_eq!(length_field_of(0, false), (vec![0x00], 2));
    assert_eq!(length_field_of(0, true), (vec![0x80], 6));
}

#[test]
fn length_125_uses_the_short_form() {
    assert_eq!(length_field_of(125, false), (vec![125], 2 + 125));
    assert_eq!(length_field_of(125, true), (vec![0x80 | 125], 6 + 125));
}

#[test]
fn length_126_uses_sixteen_bits() {
    assert_eq!(length_field_of(126, false), (vec![126, 0x00, 0x7e], 4 + 126));
    assert_eq!(length_field_of(126, true), (vec![0x80 | 126, 0x00, 0x7e], 8 + 126));
}

#[test]
fn length_65535_uses_sixteen_bits() {
    assert_eq!(length_field_of(65535, false), (vec![126, 0xff, 0xff], 4 + 65535));
}

#[test]
fn length_65536_uses_sixty_four_bits() {
    assert_eq!(
        length_field_of(65536, false),
        (vec![127, 0, 0, 0, 0, 0, 0x01, 0x00, 0x00], 10 + 65536)
    );
    assert_eq!(
        length_field_of(65536, true),
        (vec![0x80 | 127, 0, 0, 0, 0, 0, 0x01, 0x00, 0x00], 14 + 65536)
    );
}

#[test]
fn roundtrip_gives_opcode_and_payload_back() {
    let opcodes = [
        Opcode::Continuation,
        Opcode::Text,
        Opcode::Binary,
        Opcode::Close,
        Opcode::Ping,
        Opcode::Pong,
    ];
    let payloads: [&[u8]; 4] = [b"", b"a", b"hello, world", &[0u8, 255, 128, 7, 7, 7, 1]];
    let keys = [None, Some([0u8, 0, 0, 0]), Some([1, 2, 3, 4]), Some([0xff, 0xff, 0xff, 0xff])];
    for opcode in opcodes {
        for payload in payloads {
            for key in keys {
                for fin in [true, false] {
                    let mut frame = Frame::new(opcode, payload.to_vec(), key);
                    frame.fin = fin;
                    let bytes = frame.encode();
                    let (back, used) = decode(&bytes).unwrap();
                    assert_eq!(used, bytes.len());
                    assert_eq!(back.opcode, opcode);
                    assert_eq!(back.payload, payload.to_vec());
                    assert_eq!(back, frame);
                }
            }
        }
    }
}

#[test]
fn encoding_writes_the_three_reserved_bits() {
    let mut frame = text(b"", None);
    frame.rsv = 0b101;
    assert_eq!(frame.encode(), vec![0x80 | 0x50 | 0x01, 0x00]);
    frame.rsv = 0b1000;
    assert_eq!(frame.encode(), vec![0x81, 0x00]);
    frame.rsv = 4;
    assert_eq!(
        decode(&frame.encode()),
        Err(DecodeError::Protocol(ProtocolError::ReservedBits))
    );
}

#[test]
fn masking_xors_with_the_key_in_turn() {
    let mut payload = vec![0x00, 0x00, 0x00, 0x00, 0xff, 0x0f];
    apply_mask(&mut payload, &[0x01, 0x02, 0x03, 0x04]);
    assert_eq!(payload, vec![0x01, 0x02, 0x03, 0x04, 0xfe, 0x0d]);
}

#[test]
fn masking_twice_gives_the_payload_back() {
    let plain: Vec<u8> = (0..=255u8).chain(0..50u8).collect();
    for key in [[0u8, 0, 0, 0], [0x37, 0xfa, 0x21, 0x3d], [0xff, 0x00, 0xaa, 0x55]] {
        let mut payload = plain.clone();
        apply_mask(&mut payload, &key);
        if key != [0, 0, 0, 0] {
            assert_ne!(payload, plain);
        }
        apply_mask(&mut payload, &key);
        assert_eq!(payload, plain);
    }
}

#[test]
fn masking_nothing_gives_nothing() {
    let mut payload: Vec<u8> = Vec::new();
    apply_mask(&mut payload, &[9, 9, 9, 9]);
    assert_eq!(payload, Vec::<u8>::new());
}

#[test]
fn opcode_numbers() {
    let table = [
        (Opcode::Continuation, 0u8),
        (Opcode::Text, 1),
        (Opcode::Binary, 2),
        (Opcode::Close, 8),
        (Opcode::Ping, 9),
        (Opcode::Pong, 10),
    ];
    for (opcode, code) in table {
        assert_eq!(opcode.code(), code);
        assert_eq!(Opcode::from_code(code), Some(opcode));
    }
    for code in [3u8, 7, 11, 15, 16, 128, 255] {
        assert_eq!(Opcode::from_code(code), None);
    }
}
