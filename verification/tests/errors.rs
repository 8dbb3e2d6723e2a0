//! One input for each error variant, and the recovery behaviour around it.

use firmata::Board;
use firmata::Error;
use firmata::Message;

fn board_with_pins(n: usize) -> Board {
    let mut board = Board::new();
    let mut frame: Vec<u8> = vec![0xF0, 0x6C, 0x7F, 0x7F];
    for _ in 0..n {
        frame.extend_from_slice(&[0, 1, 1, 1, 0x7F]);
    }
    frame.push(0xF7);
    board.poll(&frame).unwrap();
    board
}

#[test]
fn unknown_sysex_code_is_reported_and_sticks() {
    let mut board = Board::new();
    match board.poll(&[0xF0, 0x71, 0x01, 0xF7]).unwrap_err() {
        Error::UnknownSysEx { code } => assert_eq!(code, 0x71),
        other => panic!("unexpected error: {:?}", other),
    }
    // The frame is left in place: the condition is terminal for decoding.
    assert!(matches!(
        board.poll(&[]).unwrap_err(),
        Error::UnknownSysEx { code: 0x71 }
    ));
}

#[test]
fn bad_byte_is_discarded_and_decoding_resyncs() {
    let mut board = Board::new();
    match board.poll(&[0x42, 0xF9, 2, 5]).unwrap_err() {
        Error::BadByte(byte) => assert_eq!(byte, 0x42),
        other => panic!("unexpected error: {:?}", other),
    }
    // The offending byte was dropped; the frame behind it decodes next.
    let messages = board.poll(&[]).unwrap();
    assert_eq!(messages, vec![Message::ProtocolVersion(2, 5)]);
}

#[test]
fn invalid_firmware_name_fails_with_utf8() {
    let mut board = Board::new();
    assert!(matches!(
        board.poll(&[0xF0, 0x79, 2, 5, 0xC3, 0x28, 0xF7]).unwrap_err(),
        Error::Utf8
    ));
    // The version had already been stored when the name failed to decode.
    assert_eq!(board.get_firmware_version().unwrap(), "2.5");
    assert!(board.get_firmware_name().is_none());
}

#[test]
fn firmware_frame_without_version_bytes_is_too_short() {
    let mut board = Board::new();
    assert!(matches!(
        board.poll(&[0xF0, 0x79, 0xF7]).unwrap_err(),
        Error::MessageTooShort
    ));
    assert!(matches!(
        board.poll(&[]).unwrap_err(),
        Error::MessageTooShort
    ));
}

#[test]
fn short_pin_state_frames_are_too_short() {
    let mut board = board_with_pins(4);
    assert!(matches!(
        board.poll(&[0xF0, 0x6E, 0xF7]).unwrap_err(),
        Error::MessageTooShort
    ));
    let mut board = board_with_pins(4);
    assert!(matches!(
        board.poll(&[0xF0, 0x6E, 2, 3, 0xF7]).unwrap_err(),
        Error::MessageTooShort
    ));
}

#[test]
fn short_i2c_reply_is_too_short() {
    let mut board = Board::new();
    assert!(matches!(
        board.poll(&[0xF0, 0x77, 1, 2, 3, 0xF7]).unwrap_err(),
        Error::MessageTooShort
    ));
    assert!(board.get_i2c_data().is_empty());
}

#[test]
fn capability_descriptor_without_modes_is_too_short() {
    let mut board = board_with_pins(2);
    assert!(matches!(
        board.poll(&[0xF0, 0x6C, 0x7F, 0x7F, 0x7F, 0xF7]).unwrap_err(),
        Error::MessageTooShort
    ));
    // The previous pin table is kept when the rebuild fails.
    assert_eq!(board.get_all_pins().len(), 4);
}

#[test]
fn pin_state_for_unknown_pin_is_out_of_bounds() {
    let mut board = board_with_pins(2);
    match board.poll(&[0xF0, 0x6E, 9, 3, 42, 0xF7]).unwrap_err() {
        Error::PinOutOfBounds { pin, len, source } => {
            assert_eq!(pin, 9);
            assert_eq!(len, 4);
            assert_eq!(source, "poll : PIN_STATE_RESPONSE");
        },
        other => panic!("unexpected error: {:?}", other),
    }
}

#[test]
fn writes_to_missing_pins_are_out_of_bounds() {
    let mut board = Board::new();
    match board.set_pin_mode(3, 0).unwrap_err() {
        Error::PinOutOfBounds { pin, len, source } => {
            assert_eq!(pin, 3);
            assert_eq!(len, 0);
            assert_eq!(source, "set_pin_mode");
        },
        other => panic!("unexpected error: {:?}", other),
    }
    assert!(matches!(
        board.digital_write(3, true).unwrap_err(),
        Error::PinOutOfBounds { .. }
    ));
    assert!(matches!(
        board.analog_write(3, 1).unwrap_err(),
        Error::PinOutOfBounds { .. }
    ));
    assert!(matches!(
        board.report_analog(3, true).unwrap_err(),
        Error::PinOutOfBounds { .. }
    ));
    assert!(matches!(
        board.report_digital(3, true).unwrap_err(),
        Error::PinOutOfBounds { .. }
    ));
    assert!(board.take_outbound().is_empty());
}

#[test]
fn is_disconnected_distinguishes_variants() {
    assert!(Error::Disconnected.is_disconnected());
    assert!(!Error::BadByte(0).is_disconnected());
    assert!(!Error::Utf8.is_disconnected());
}

#[test]
fn decode_error_keeps_earlier_state_changes() {
    let mut board = board_with_pins(13);
    // An analog update decodes, then a bad byte aborts the call: the error
    // takes precedence over the decoded messages, but the pin table keeps
    // the update that was already applied.
    assert!(matches!(
        board.poll(&[0xE0, 0x05, 0x00, 0x42]).unwrap_err(),
        Error::BadByte(0x42)
    ));
    assert_eq!(board.get_pin(14).unwrap().value, 5);
}
