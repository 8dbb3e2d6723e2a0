//! Firmata command bytes, pin mode codes, and related wire-level constants.

use vstd::prelude::*;

verus! {

// Message command bytes (0x80-0xFF).
/// Send data for a digital port (a collection of 8 pins).
pub const DIGITAL_MESSAGE: u8 = 0x90;
/// Upper bound of the digital message command range.
pub const DIGITAL_MESSAGE_BOUND: u8 = 0x9F;
/// Send data for an analog pin (or PWM).
pub const ANALOG_MESSAGE: u8 = 0xE0;
/// Upper bound of the analog message command range.
pub const ANALOG_MESSAGE_BOUND: u8 = 0xEF;
/// Enable analog input by pin number.
pub const REPORT_ANALOG: u8 = 0xC0;
/// Enable digital input by port.
pub const REPORT_DIGITAL: u8 = 0xD0;
/// Set a pin to INPUT/OUTPUT/PWM/etc.
pub const SET_PIN_MODE: u8 = 0xF4;
/// Report the protocol version.
pub const REPORT_VERSION: u8 = 0xF9;
/// Start a sysex message.
pub const START_SYSEX: u8 = 0xF0;
/// End a sysex message.
pub const END_SYSEX: u8 = 0xF7;

// Extended command set used inside sysex frames (0x00-0x7F).
/// Send an I2C read/write request.
pub const I2C_REQUEST: u8 = 0x76;
/// Reply to an I2C read request.
pub const I2C_REPLY: u8 = 0x77;
/// Configure I2C settings such as delay times.
pub const I2C_CONFIG: u8 = 0x78;
/// Report the name and version of the firmware.
pub const REPORT_FIRMWARE: u8 = 0x79;
/// Reply with a pin's current mode and value.
pub const PIN_STATE_RESPONSE: u8 = 0x6E;
/// Ask for the supported modes and resolution of all pins.
pub const CAPABILITY_QUERY: u8 = 0x6B;
/// Reply with supported modes and resolution.
pub const CAPABILITY_RESPONSE: u8 = 0x6C;
/// Ask for the mapping of analog pins to pin numbers.
pub const ANALOG_MAPPING_QUERY: u8 = 0x69;
/// Reply with the analog mapping.
pub const ANALOG_MAPPING_RESPONSE: u8 = 0x6A;
/// MIDI byte reserved for realtime messages; doubles as the 7-bit payload mask.
pub const SYSEX_REALTIME: u8 = 0x7F;

// Pin mode codes.
/// Same as INPUT defined in Arduino.
pub const PIN_MODE_INPUT: u8 = 0;
/// Same as OUTPUT defined in Arduino.
pub const PIN_MODE_OUTPUT: u8 = 1;
/// Analog pin in analog input mode.
pub const PIN_MODE_ANALOG: u8 = 2;
/// Digital pin in PWM output mode.
pub const PIN_MODE_PWM: u8 = 3;
/// Digital pin in Servo output mode.
pub const PIN_MODE_SERVO: u8 = 4;
/// shiftIn/shiftOut mode.
pub const PIN_MODE_SHIFT: u8 = 5;
/// Pin included in I2C setup.
pub const PIN_MODE_I2C: u8 = 6;
/// Pin configured for 1-wire.
pub const PIN_MODE_ONEWIRE: u8 = 7;
/// Pin configured for stepper motor.
pub const PIN_MODE_STEPPER: u8 = 8;
/// Pin configured for rotary encoders.
pub const PIN_MODE_ENCODER: u8 = 9;
/// Pin configured for serial communication.
pub const PIN_MODE_SERIAL: u8 = 10;
/// Enable the internal pull-up resistor for the pin.
pub const PIN_MODE_PULLUP: u8 = 11;
/// Pin to be ignored by digitalWrite and capabilityResponse.
pub const PIN_MODE_IGNORE: u8 = 0x7F;

// I2C request modes.
/// Read/write mode bit for a write request.
pub const I2C_WRITE: u8 = 0x00;
/// Read/write mode bit for a read request.
pub const I2C_READ: u8 = 0x01;

/// Default analog resolution value.
pub const DEFAULT_ANALOG_RESOLUTION: u8 = 10;

} // verus!
