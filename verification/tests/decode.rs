//! Frame-by-frame decoding behaviour of `poll`.

use firmata::Board;
use firmata::Message;

fn board_with_pins(n: usize) -> Board {
    let mut board = Board::new();
    let mut frame: Vec<u8> = vec![0xF0, 0x6C, 0x7F, 0x7F];
    for _ in 0..n {
        frame.extend_from_slice(&[0, 1, 1, 1, 0x7F]);
    }
    frame.push(0xF7);
    board.poll(&frame).unwrap();
    board
}

#[test]
fn capability_response_rebuilds_pin_table() {
    let mut board = Board::new();
    let messages = board
        .poll(&[0xF0, 0x6C, 0x7F, 0x7F, 0, 1, 1, 1, 0x7F, 0, 1, 1, 1, 0x7F, 0xF7])
        .unwrap();
    assert_eq!(messages, vec![Message::CapabilityResponse]);
    let pins = board.get_all_pins();
    assert_eq!(pins.len(), 4);
    assert_eq!(pins[0].mode, 2);
    assert_eq!(pins[0].modes, vec![2]);
    assert!(pins[0].report_digital_active);
    assert_eq!(pins[2].modes, vec![0, 1]);
    assert_eq!(pins[2].mode, 0);
    assert_eq!(pins[2].resolution, 1);
    assert_eq!(pins[3].modes, vec![0, 1]);
    assert_eq!(pins[3].value, 0);
}

#[test]
fn capability_response_discards_previous_table() {
    let mut board = board_with_pins(5);
    assert_eq!(board.get_all_pins().len(), 7);
    board
        .poll(&[0xF0, 0x6C, 0x7F, 0x7F, 3, 8, 0x7F, 0xF7])
        .unwrap();
    let pins = board.get_all_pins();
    assert_eq!(pins.len(), 3);
    assert_eq!(pins[2].modes, vec![3]);
    assert_eq!(pins[2].resolution, 8);
}

#[test]
fn analog_mapping_marks_pins() {
    let mut board = board_with_pins(3);
    let messages = board.poll(&[0xF0, 0x6A, 0x7F, 0x7F, 0x00, 0xF7]).unwrap();
    assert_eq!(messages, vec![Message::AnalogMappingResponse]);
    assert!(!board.get_pin(0).unwrap().analog);
    assert!(!board.get_pin(1).unwrap().analog);
    assert!(board.get_pin(2).unwrap().analog);
    assert!(!board.get_pin(3).unwrap().analog);
}

#[test]
fn analog_message_updates_pin_value() {
    let mut board = board_with_pins(13);
    let messages = board.poll(&[0xE0, 0x05, 0x00]).unwrap();
    assert_eq!(messages, vec![Message::Analog(vec![(14, 5)])]);
    assert_eq!(board.get_pin(14).unwrap().value, 5);
}

#[test]
fn analog_message_carries_the_full_fourteen_bits() {
    let mut board = board_with_pins(13);
    let messages = board.poll(&[0xE0, 0x00, 0x04]).unwrap();
    assert_eq!(messages, vec![Message::Analog(vec![(14, 512)])]);
    assert_eq!(board.get_pin(14).unwrap().value, 512);
    let messages = board.poll(&[0xE0, 0x7F, 0x7F]).unwrap();
    assert_eq!(messages, vec![Message::Analog(vec![(14, 16383)])]);
    assert_eq!(board.get_pin(14).unwrap().value, 16383);
}

#[test]
fn analog_message_for_missing_pin_is_ignored() {
    let mut board = Board::new();
    let messages = board.poll(&[0xE0, 0x05, 0x00]).unwrap();
    assert!(messages.is_empty());
}

#[test]
fn digital_message_updates_input_pins_only() {
    let mut board = board_with_pins(6);
    let messages = board.poll(&[0x90, 0x0C, 0x00]).unwrap();
    assert_eq!(messages, vec![Message::Digital(vec![(2, true), (3, true)])]);
    assert_eq!(board.get_pin(2).unwrap().value, 1);
    assert_eq!(board.get_pin(3).unwrap().value, 1);
    // The reserved pins are not in INPUT or PULLUP mode, so bit 0 and 1
    // leave them untouched.
    assert_eq!(board.get_pin(0).unwrap().value, 0);
}

#[test]
fn empty_sysex_yields_empty_response() {
    let mut board = Board::new();
    let messages = board.poll(&[0xF0, 0xF7]).unwrap();
    assert_eq!(messages, vec![Message::EmptyResponse]);
}

#[test]
fn report_firmware_with_name() {
    let mut board = Board::new();
    let messages = board
        .poll(&[0xF0, 0x79, 2, 5, 0x41, 0x42, 0x43, 0xF7])
        .unwrap();
    assert_eq!(
        messages,
        vec![
            Message::ReportFirmwareVersion(String::from("2.5")),
            Message::ReportFirmwareName(String::from("ABC")),
        ]
    );
    assert_eq!(board.get_firmware_name().unwrap(), "ABC");
    assert_eq!(board.get_firmware_version().unwrap(), "2.5");
}

#[test]
fn report_firmware_name_decodes_multibyte_utf8() {
    let mut board = Board::new();
    let messages = board.poll(&[0xF0, 0x79, 2, 5, 0xC3, 0xA9, 0xF7]).unwrap();
    assert_eq!(
        messages,
        vec![
            Message::ReportFirmwareVersion(String::from("2.5")),
            Message::ReportFirmwareName(String::from("\u{e9}")),
        ]
    );
    let name = board.get_firmware_name().unwrap();
    assert_eq!(name.chars().count(), 1);
    assert_eq!(name.as_bytes(), &[0xC3, 0xA9]);
}

#[test]
fn report_firmware_without_name_leaves_name_unset() {
    let mut board = Board::new();
    let messages = board.poll(&[0xF0, 0x79, 2, 5, 0xF7]).unwrap();
    assert_eq!(
        messages,
        vec![Message::ReportFirmwareVersion(String::from("2.5"))]
    );
    assert!(board.get_firmware_name().is_none());
}

#[test]
fn i2c_reply_is_reassembled_and_logged() {
    let mut board = Board::new();
    let messages = board
        .poll(&[0xF0, 0x77, 0x48, 0x00, 0x01, 0x00, 0x10, 0x01, 0x05, 0x00, 0xF7])
        .unwrap();
    assert_eq!(messages, vec![Message::I2CReply]);
    let log = board.get_i2c_data();
    assert_eq!(log.len(), 1);
    assert_eq!(log[0].address, 0x48);
    assert_eq!(log[0].register, 0x01);
    assert_eq!(log[0].data, vec![0x90, 0x05]);
}

#[test]
fn pin_state_response_applies_mode_and_value() {
    let mut board = board_with_pins(4);
    let messages = board.poll(&[0xF0, 0x6E, 2, 3, 42, 0xF7]).unwrap();
    assert_eq!(messages, vec![Message::PinStateResponse]);
    assert_eq!(board.get_pin(2).unwrap().mode, 3);
    assert_eq!(board.get_pin(2).unwrap().value, 42);
}

#[test]
fn pin_state_response_without_payload_changes_nothing() {
    let mut board = board_with_pins(4);
    let messages = board.poll(&[0xF0, 0x6E, 2, 0xF7]).unwrap();
    assert_eq!(messages, vec![Message::PinStateResponse]);
    assert_eq!(board.get_pin(2).unwrap().mode, 0);
    assert_eq!(board.get_pin(2).unwrap().value, 0);
}

#[test]
fn several_frames_decode_in_one_poll() {
    let mut board = Board::new();
    let messages = board.poll(&[0xF9, 2, 5, 0xF0, 0xF7]).unwrap();
    assert_eq!(
        messages,
        vec![Message::ProtocolVersion(2, 5), Message::EmptyResponse]
    );
}

#[test]
fn message_accessors_select_variants() {
    let analog = Message::Analog(vec![(14, 5)]);
    let digital = Message::Digital(vec![(2, true)]);
    assert_eq!(analog.try_as_analog(), Some(&vec![(14, 5)]));
    assert!(analog.try_as_digital().is_none());
    assert_eq!(digital.try_as_digital(), Some(&vec![(2, true)]));
    assert!(digital.try_as_analog().is_none());
}

#[test]
fn default_pin_is_a_reserved_analog_pin() {
    let pin = firmata::Pin::default_with_report_digital_active();
    assert!(!pin.analog);
    assert_eq!(pin.mode, firmata::PIN_MODE_ANALOG);
    assert_eq!(pin.modes, vec![firmata::PIN_MODE_ANALOG]);
    assert!(!pin.report_analog_active);
    assert!(pin.report_digital_active);
    assert_eq!(pin.resolution, 10);
    assert_eq!(pin.value, 0);
}
