//! Behavioural properties of the board core: re-poll idempotence, partial
//! frames, change detection, disconnection, and version formatting.

use firmata::Board;
use firmata::Message;

/// A board whose pin table was built from a capability response holding
/// `n` pin descriptors, each with modes 0 and 1 at resolution 1.
fn board_with_pins(n: usize) -> Board {
    let mut board = Board::new();
    let mut frame: Vec<u8> = vec![0xF0, 0x6C, 0x7F, 0x7F];
    for _ in 0..n {
        frame.extend_from_slice(&[0, 1, 1, 1, 0x7F]);
    }
    frame.push(0xF7);
    let messages = board.poll(&frame).unwrap();
    assert_eq!(messages, vec![Message::CapabilityResponse]);
    board
}

#[test]
fn repoll_with_no_new_bytes_is_silent() {
    let mut board = board_with_pins(13);
    let messages = board.poll(&[0xF9, 2, 5]).unwrap();
    assert_eq!(messages, vec![Message::ProtocolVersion(2, 5)]);
    let again = board.poll(&[]).unwrap();
    assert!(again.is_empty());
    let once_more = board.poll(&[]).unwrap();
    assert!(once_more.is_empty());
}

#[test]
fn partial_sysex_across_two_polls() {
    let mut board = Board::new();
    let first = board.poll(&[0xF0, 0x6C]).unwrap();
    assert!(first.is_empty());
    let second = board.poll(&[0x7F, 0x7F, 0xF7]).unwrap();
    assert_eq!(second, vec![Message::CapabilityResponse]);
    assert_eq!(board.get_all_pins().len(), 2);
}

#[test]
fn partial_short_message_across_two_polls() {
    let mut board = Board::new();
    assert!(board.poll(&[0xF9, 2]).unwrap().is_empty());
    let messages = board.poll(&[5]).unwrap();
    assert_eq!(messages, vec![Message::ProtocolVersion(2, 5)]);
}

#[test]
fn chunked_input_decodes_like_whole_input() {
    let bytes: Vec<u8> = vec![0xF9, 2, 5, 0xF0, 0xF7, 0xF0, 0x6A, 0x7F, 0xF7];
    let mut whole = Board::new();
    let expected = whole.poll(&bytes).unwrap();
    for split in 1..bytes.len() {
        let mut chunked = Board::new();
        let mut messages = chunked.poll(&bytes[..split]).unwrap();
        messages.extend(chunked.poll(&bytes[split..]).unwrap());
        assert_eq!(messages, expected);
    }
}

#[test]
fn identical_analog_messages_emit_once() {
    let mut board = board_with_pins(13);
    let first = board.poll(&[0xE0, 0x00, 0x04]).unwrap();
    assert_eq!(first, vec![Message::Analog(vec![(14, 512)])]);
    let second = board.poll(&[0xE0, 0x00, 0x04]).unwrap();
    assert!(second.is_empty());
}

#[test]
fn identical_digital_messages_emit_once() {
    let mut board = board_with_pins(6);
    let first = board.poll(&[0x90, 0x04, 0x00]).unwrap();
    assert_eq!(first, vec![Message::Digital(vec![(2, true)])]);
    let second = board.poll(&[0x90, 0x04, 0x00]).unwrap();
    assert!(second.is_empty());
}

#[test]
fn invalid_pin_mode_rejected_without_effect() {
    let mut board = board_with_pins(4);
    board.take_outbound();
    let err = board.set_pin_mode(2, 99).unwrap_err();
    match err {
        firmata::Error::InvalidPinMode { pin, modes } => {
            assert_eq!(pin, 2);
            assert_eq!(modes, vec![0, 1]);
        },
        other => panic!("unexpected error: {:?}", other),
    }
    assert_eq!(board.get_pin(2).unwrap().mode, 0);
    assert!(board.take_outbound().is_empty());
}

#[test]
fn disconnected_after_halt_deterministically() {
    let mut board = board_with_pins(4);
    board.disconnect().unwrap();
    for _ in 0..3 {
        assert!(board.poll(&[]).unwrap_err().is_disconnected());
        assert!(board.digital_write(2, true).unwrap_err().is_disconnected());
        assert!(board.set_pin_mode(2, 1).unwrap_err().is_disconnected());
        assert!(board.query_capabilities().unwrap_err().is_disconnected());
    }
    assert!(board.disconnect().unwrap_err().is_disconnected());
}

#[test]
fn version_formats_as_octal_text() {
    let mut board = Board::new();
    board.poll(&[0xF9, 2, 5]).unwrap();
    assert_eq!(board.get_protocol_version().unwrap(), "2.5");
    board.poll(&[0xF9, 8, 9]).unwrap();
    assert_eq!(board.get_protocol_version().unwrap(), "10.11");
    board.poll(&[0xF9, 255, 64]).unwrap();
    assert_eq!(board.get_protocol_version().unwrap(), "377.100");
}

#[test]
fn firmware_version_formats_as_octal_text() {
    let mut board = Board::new();
    let messages = board.poll(&[0xF0, 0x79, 8, 9, 0xF7]).unwrap();
    assert_eq!(
        messages,
        vec![Message::ReportFirmwareVersion(String::from("10.11"))]
    );
    assert_eq!(board.get_firmware_version().unwrap(), "10.11");
}

#[test]
fn initial_messages_sent_once_after_firmware_known() {
    let mut board = Board::new();
    board.poll(&[0xF0, 0x79, 2, 5, 0x41, 0xF7]).unwrap();
    assert_eq!(board.get_firmware_name().unwrap(), "A");
    assert!(board.take_outbound().is_empty());
    board.poll(&[]).unwrap();
    assert_eq!(
        board.take_outbound(),
        vec![0xF0, 0x6B, 0xF7, 0xF0, 0x69, 0xF7, 0xD0, 0x01]
    );
    board.poll(&[]).unwrap();
    assert!(board.take_outbound().is_empty());
}

#[test]
fn ready_once_negotiated_and_connected() {
    let mut board = board_with_pins(4);
    assert!(!board.is_ready());
    board.poll(&[0xF0, 0x79, 2, 5, 0x41, 0xF7]).unwrap();
    board.poll(&[]).unwrap();
    assert!(board.is_ready());
    board.disconnect().unwrap();
    assert!(!board.is_ready());
}
