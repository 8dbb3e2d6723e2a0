//! Exact wire bytes produced by the command encoder.

use firmata::Board;

fn board_with_pins(n: usize) -> Board {
    let mut board = Board::new();
    let mut frame: Vec<u8> = vec![0xF0, 0x6C, 0x7F, 0x7F];
    for _ in 0..n {
        frame.extend_from_slice(&[0, 1, 1, 1, 0x7F]);
    }
    frame.push(0xF7);
    board.poll(&frame).unwrap();
    board
}

#[test]
fn set_pin_mode_emits_command_and_updates_pin() {
    let mut board = board_with_pins(4);
    board.set_pin_mode(2, 1).unwrap();
    assert_eq!(board.take_outbound(), vec![0xF4, 2, 1]);
    assert_eq!(board.get_pin(2).unwrap().mode, 1);
}

#[test]
fn digital_write_emits_port_state() {
    let mut board = board_with_pins(6);
    board.digital_write(2, true).unwrap();
    assert_eq!(board.take_outbound(), vec![0x90, 0x04, 0x00]);
    board.digital_write(3, true).unwrap();
    assert_eq!(board.take_outbound(), vec![0x90, 0x0C, 0x00]);
    board.digital_write(2, false).unwrap();
    assert_eq!(board.take_outbound(), vec![0x90, 0x08, 0x00]);
    assert_eq!(board.get_pin(2).unwrap().value, 0);
    assert_eq!(board.get_pin(3).unwrap().value, 1);
}

#[test]
fn analog_write_splits_level_into_seven_bit_bytes() {
    let mut board = board_with_pins(4);
    board.analog_write(3, 0xFF).unwrap();
    assert_eq!(board.take_outbound(), vec![0xE3, 0x7F, 0x01]);
    assert_eq!(board.get_pin(3).unwrap().value, 0xFF);
}

#[test]
fn report_analog_aggregates_with_xor() {
    let mut board = board_with_pins(6);
    board.report_analog(2, true).unwrap();
    assert_eq!(board.take_outbound(), vec![0xC0, 1]);
    // The analog aggregation is XOR, kept for protocol parity with
    // deployed firmware: two active pins in the port cancel out.
    board.report_analog(3, true).unwrap();
    assert_eq!(board.take_outbound(), vec![0xC0, 0]);
}

#[test]
fn report_analog_repeated_state_is_a_no_op() {
    let mut board = board_with_pins(6);
    board.report_analog(2, true).unwrap();
    board.take_outbound();
    board.report_analog(2, true).unwrap();
    assert!(board.take_outbound().is_empty());
}

#[test]
fn report_digital_aggregates_with_or() {
    let mut board = board_with_pins(6);
    // The two reserved pins already report digital, so the OR is 1.
    board.report_digital(2, true).unwrap();
    assert_eq!(board.take_outbound(), vec![0xD0, 1]);
    board.report_digital(3, true).unwrap();
    assert_eq!(board.take_outbound(), vec![0xD0, 1]);
}

#[test]
fn report_digital_repeated_state_is_a_no_op() {
    let mut board = board_with_pins(6);
    board.report_digital(2, false).unwrap();
    assert!(board.take_outbound().is_empty());
}

#[test]
fn queries_emit_fixed_sysex_frames() {
    let mut board = Board::new();
    board.query_capabilities().unwrap();
    assert_eq!(board.take_outbound(), vec![0xF0, 0x6B, 0xF7]);
    board.query_analog_mapping().unwrap();
    assert_eq!(board.take_outbound(), vec![0xF0, 0x69, 0xF7]);
    board.report_firmware().unwrap();
    assert_eq!(board.take_outbound(), vec![0xF0, 0x79, 0xF7]);
}

#[test]
fn i2c_config_splits_delay() {
    let mut board = Board::new();
    board.i2c_config(258).unwrap();
    assert_eq!(board.take_outbound(), vec![0xF0, 0x78, 0x02, 0x01, 0xF7]);
}

#[test]
fn i2c_read_emits_read_request() {
    let mut board = Board::new();
    board.i2c_read(0x48, 130).unwrap();
    assert_eq!(
        board.take_outbound(),
        vec![0xF0, 0x76, 0x48, 0x08, 0x02, 0x01, 0xF7]
    );
}

#[test]
fn i2c_write_reencodes_every_byte_as_two() {
    let mut board = Board::new();
    board.i2c_write(0x48, &[0x90, 0x01]).unwrap();
    assert_eq!(
        board.take_outbound(),
        vec![0xF0, 0x76, 0x48, 0x00, 0x10, 0x01, 0x01, 0x00, 0xF7]
    );
}

#[test]
fn outbound_bytes_accumulate_in_submission_order() {
    let mut board = Board::new();
    board.query_capabilities().unwrap();
    board.query_analog_mapping().unwrap();
    assert_eq!(
        board.take_outbound(),
        vec![0xF0, 0x6B, 0xF7, 0xF0, 0x69, 0xF7]
    );
    assert!(board.take_outbound().is_empty());
}
