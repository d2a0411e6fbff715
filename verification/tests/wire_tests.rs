use rollback_core::input::PlayerInputFrame;
use rollback_core::player::PlayerHandle;
use rollback_core::wire::{decode, encode, Message, MessageKind, WireError, WIRE_LEN};

fn input(bits: u32) -> PlayerInputFrame {
    PlayerInputFrame::from_bits(bits).unwrap()
}

#[test]
fn an_input_message_has_this_exact_layout() {
    let m = Message {
        kind: MessageKind::Input,
        player: PlayerHandle(1),
        frame: 0x0403_0201,
        input: input(4),
    };
    assert_eq!(encode(&m), vec![1, 1, 0x01, 0x02, 0x03, 0x04, 4, 0, 0, 0]);
}

#[test]
fn a_handshake_message_has_this_exact_layout() {
    let m = Message { kind: MessageKind::Sync, player: PlayerHandle(0), frame: 0, input: input(0) };
    assert_eq!(encode(&m), vec![0u8; 10]);
    assert_eq!(WIRE_LEN, 10);
}

#[test]
fn the_frame_number_is_little_endian() {
    let m = Message { kind: MessageKind::Input, player: PlayerHandle(0), frame: 10, input: input(0) };
    assert_eq!(encode(&m)[2..6], [10, 0, 0, 0]);
    let m = Message { frame: 256, ..m };
    assert_eq!(encode(&m)[2..6], [0, 1, 0, 0]);
    let m = Message { frame: u32::MAX, ..m };
    assert_eq!(encode(&m)[2..6], [255, 255, 255, 255]);
}

#[test]
fn decode_reads_what_encode_wrote() {
    for kind in [MessageKind::Sync, MessageKind::Input] {
        for frame in [0u32, 1, 255, 256, 65_535, 65_536, 0x0102_0304, u32::MAX] {
            for bits in 0..16u32 {
                let m = Message { kind, player: PlayerHandle((bits * 17) as u8), frame, input: input(bits) };
                let bytes = encode(&m);
                assert_eq!(bytes.len(), WIRE_LEN);
                assert_eq!(decode(&bytes), Ok(m));
            }
        }
    }
}

#[test]
fn decode_reads_these_bytes() {
    let m = decode(&[1, 1, 10, 0, 0, 0, 4, 0, 0, 0]).unwrap();
    assert_eq!(m.kind, MessageKind::Input);
    assert_eq!(m.player, PlayerHandle(1));
    assert_eq!(m.frame, 10);
    assert_eq!(m.input, PlayerInputFrame::left());
}

#[test]
fn a_wrong_length_is_refused() {
    assert_eq!(decode(&[]), Err(WireError::BadLength));
    assert_eq!(decode(&[1, 1, 10, 0, 0, 0, 4, 0, 0]), Err(WireError::BadLength));
    assert_eq!(decode(&[1, 1, 10, 0, 0, 0, 4, 0, 0, 0, 0]), Err(WireError::BadLength));
}

#[test]
fn an_unknown_kind_is_refused() {
    assert_eq!(decode(&[2, 1, 10, 0, 0, 0, 4, 0, 0, 0]), Err(WireError::UnknownKind));
    assert_eq!(decode(&[255, 0, 0, 0, 0, 0, 0, 0, 0, 0]), Err(WireError::UnknownKind));
}

#[test]
fn reserved_input_bits_are_refused() {
    assert_eq!(decode(&[1, 1, 10, 0, 0, 0, 16, 0, 0, 0]), Err(WireError::ReservedBits));
    assert_eq!(decode(&[1, 1, 10, 0, 0, 0, 4, 1, 0, 0]), Err(WireError::ReservedBits));
    assert_eq!(decode(&[0, 1, 10, 0, 0, 0, 0, 0, 0, 128]), Err(WireError::ReservedBits));
    assert!(decode(&[1, 1, 10, 0, 0, 0, 15, 0, 0, 0]).is_ok());
}

#[test]
fn the_errors_have_a_fixed_precedence() {
    assert_eq!(decode(&[9, 0, 0, 0, 0, 0, 255, 255, 255]), Err(WireError::BadLength));
    assert_eq!(decode(&[9, 0, 0, 0, 0, 0, 255, 255, 255, 255]), Err(WireError::UnknownKind));
}
