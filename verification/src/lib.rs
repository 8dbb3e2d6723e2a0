//! A Firmata protocol client core.
//!
//! The [`Board`] turns a stream of received bytes into a live model of a
//! remote microcontroller's pins and turns pin operations into framed
//! protocol commands. It never touches a transport itself: received bytes
//! are handed to [`Board::poll`], and the bytes to transmit are collected
//! from [`Board::take_outbound`], so any byte transport can drive it.

mod board;
mod constants;
mod decode;
mod error;
mod i2c_reply;
mod laws;
mod message;
mod pin;
mod text;

pub use board::port_bits;
pub use board::report_or;
pub use board::report_xor;
pub use board::seven_bit_pairs;
pub use board::Board;
pub use decode::analog_mark;
pub use decode::capability_scan;
pub use decode::combine14;
pub use decode::combine7;
pub use decode::digital_scan;
pub use decode::drain;
pub use decode::first_terminator;
pub use decode::i2c_pairs;
pub use decode::initial_commands;
pub use decode::latch_fires;
pub use decode::latched;
pub use decode::lemma_drain_fail;
pub use decode::lemma_drain_invariant_step;
pub use decode::lemma_drain_next;
pub use decode::lemma_drain_stop;
pub use decode::lemma_first_terminator;
pub use decode::lemma_step_progress;
pub use decode::poll_start;
pub use decode::step;
pub use decode::step_sysex;
pub use decode::BoardV;
pub use decode::DrainV;
pub use decode::StepV;
pub use error::Error;
pub use error::ErrorV;
pub use i2c_reply::I2CReply;
pub use i2c_reply::I2CReplyV;
pub use laws::lemma_analog_same_frame_twice;
pub use laws::lemma_capability_response_pins_wf;
pub use laws::lemma_disconnected_is_absorbing;
pub use laws::lemma_set_pin_mode_keeps_pin_wf;
pub use laws::lemma_chunked_polls_same_trace;
pub use laws::lemma_drain_extend;
pub use laws::lemma_drain_frame;
pub use laws::lemma_drain_leftover_silent;
pub use laws::lemma_partial_sysex_waits;
pub use laws::lemma_repoll_empty_input_silent;
pub use laws::lemma_step_extend;
pub use laws::lemma_step_frame;
pub use message::Message;
pub use message::MessageV;
pub use pin::default_reserved_pin;
pub use pin::Pin;
pub use pin::PinV;
pub use text::octal_digit_char;
pub use text::octal_text;
pub use text::version_string;
pub use text::version_text;

pub use constants::PIN_MODE_ANALOG;
pub use constants::PIN_MODE_ENCODER;
pub use constants::PIN_MODE_I2C;
pub use constants::PIN_MODE_IGNORE;
pub use constants::PIN_MODE_INPUT;
pub use constants::PIN_MODE_ONEWIRE;
pub use constants::PIN_MODE_OUTPUT;
pub use constants::PIN_MODE_PULLUP;
pub use constants::PIN_MODE_PWM;
pub use constants::PIN_MODE_SERIAL;
pub use constants::PIN_MODE_SERVO;
pub use constants::PIN_MODE_SHIFT;
pub use constants::PIN_MODE_STEPPER;
