//! The board: pin table, firmware metadata, I2C log, and the command encoder.

use vstd::prelude::*;
use vstd::slice::slice_index_get;

use crate::constants::ANALOG_MAPPING_QUERY;
use crate::constants::ANALOG_MESSAGE;
use crate::constants::CAPABILITY_QUERY;
use crate::constants::DIGITAL_MESSAGE;
use crate::constants::END_SYSEX;
use crate::constants::I2C_CONFIG;
use crate::constants::I2C_READ;
use crate::constants::I2C_REQUEST;
use crate::constants::I2C_WRITE;
use crate::constants::REPORT_ANALOG;
use crate::constants::REPORT_DIGITAL;
use crate::constants::REPORT_FIRMWARE;
use crate::constants::SET_PIN_MODE;
use crate::constants::START_SYSEX;
use crate::constants::SYSEX_REALTIME;
use crate::constants::ANALOG_MAPPING_RESPONSE;
use crate::constants::ANALOG_MESSAGE_BOUND;
use crate::constants::CAPABILITY_RESPONSE;
use crate::constants::DIGITAL_MESSAGE_BOUND;
use crate::constants::I2C_REPLY;
use crate::constants::PIN_MODE_IGNORE;
use crate::constants::PIN_MODE_INPUT;
use crate::constants::PIN_MODE_PULLUP;
use crate::constants::PIN_STATE_RESPONSE;
use crate::constants::REPORT_VERSION;
use crate::decode::analog_mark;
use crate::decode::capability_scan;
use crate::decode::combine14;
use crate::decode::combine7;
use crate::decode::digital_scan;
use crate::decode::drain;
use crate::decode::first_terminator;
use crate::decode::i2c_pairs;
use crate::decode::initial_commands;
use crate::decode::latch_fires;
use crate::decode::latched;
use crate::decode::lemma_drain_fail;
use crate::decode::lemma_drain_invariant_step;
use crate::decode::lemma_drain_stop;
use crate::decode::lemma_first_terminator;
use crate::decode::lemma_step_progress;
use crate::decode::poll_start;
use crate::decode::step;
use crate::decode::step_sysex;
use crate::decode::BoardV;
use crate::error::Error;
use crate::error::ErrorV;
use crate::i2c_reply::I2CReply;
use crate::i2c_reply::I2CReplyV;
use crate::message::Message;
use crate::message::MessageV;
use crate::pin::default_reserved_pin;
use crate::pin::Pin;
use crate::pin::PinV;
use crate::text::utf8_to_string;
use crate::text::version_string;

verus! {

/// Copy of `v` from index `n` on.
pub(crate) fn vec_skip(v: &Vec<u8>, n: usize) -> (r: Vec<u8>)
    requires
        n <= v@.len(),
    ensures
        r@ == v@.skip(n as int),
{
    let mut r: Vec<u8> = Vec::new();
    let mut i: usize = n;
    while i < v.len()
        invariant
            n <= i <= v@.len(),
            r@ == v@.subrange(n as int, i as int),
        decreases v@.len() - i,
    {
        let b = v[i];
        r.push(b);
        proof {
            assert(v@.subrange(n as int, i + 1 as int) =~= v@.subrange(n as int, i as int).push(b));
        }
        i = i + 1;
    }
    proof {
        assert(v@.subrange(n as int, v@.len() as int) =~= v@.skip(n as int));
    }
    r
}

/// Append every byte of `bytes` to `v`.
pub(crate) fn vec_extend(v: &mut Vec<u8>, bytes: &[u8])
    ensures
        final(v)@ == old(v)@ + bytes@,
{
    let ghost v0 = v@;
    let mut i: usize = 0;
    while i < bytes.len()
        invariant
            i <= bytes@.len(),
            v@ == v0 + bytes@.subrange(0, i as int),
        decreases bytes@.len() - i,
    {
        let b = *slice_index_get(bytes, i);
        v.push(b);
        proof {
            assert(v0 + bytes@.subrange(0, i + 1 as int) =~= (v0 + bytes@.subrange(0, i as int)).push(b));
        }
        i = i + 1;
    }
    proof {
        assert(v0 + bytes@.subrange(0, bytes@.len() as int) =~= v0 + bytes@);
    }
}

/// Copy of `v[from..to]`.
pub(crate) fn vec_subrange(v: &Vec<u8>, from: usize, to: usize) -> (r: Vec<u8>)
    requires
        from <= to <= v@.len(),
    ensures
        r@ == v@.subrange(from as int, to as int),
{
    let mut r: Vec<u8> = Vec::new();
    let mut i: usize = from;
    while i < to
        invariant
            from <= i <= to <= v@.len(),
            r@ == v@.subrange(from as int, i as int),
        decreases to - i,
    {
        let b = v[i];
        r.push(b);
        proof {
            assert(v@.subrange(from as int, i + 1 as int) =~= v@.subrange(from as int, i as int).push(
                b,
            ));
        }
        i = i + 1;
    }
    r
}

/// Whether `modes` holds `mode`.
pub(crate) fn modes_contains(modes: &Vec<u8>, mode: u8) -> (r: bool)
    ensures
        r == modes@.contains(mode),
{
    let mut i: usize = 0;
    while i < modes.len()
        invariant
            i <= modes@.len(),
            forall|k: int| 0 <= k < i ==> modes@[k] != mode,
        decreases modes@.len() - i,
    {
        if modes[i] == mode {
            return true;
        }
        i = i + 1;
    }
    false
}

/// Flatten each data byte into its two 7-bit wire bytes.
pub open spec fn seven_bit_pairs(data: Seq<u8>) -> Seq<u8>
    decreases data.len(),
{
    if data.len() == 0 {
        Seq::empty()
    } else {
        seq![data[0] & 0x7F, (data[0] >> 7) & 0x7F] + seven_bit_pairs(data.skip(1))
    }
}

/// The digital port byte: bit `i` is set when pin `base + i` has a nonzero
/// value. The scan stops at the end of the pin table.
pub open spec fn port_bits(pins: Seq<PinV>, base: int, i: int, acc: u8) -> u8
    decreases 8 - i,
{
    if i < 0 || i >= 8 || base + i >= pins.len() {
        acc
    } else {
        port_bits(
            pins,
            base,
            i + 1,
            if pins[base + i].value != 0 {
                acc | (1u8 << (i as u8))
            } else {
                acc
            },
        )
    }
}

/// XOR aggregate of the analog reporting flags over the 8 pins of a port.
pub open spec fn report_xor(pins: Seq<PinV>, base: int, i: int, acc: bool) -> bool
    decreases 8 - i,
{
    if i < 0 || i >= 8 {
        acc
    } else if base + i < pins.len() {
        report_xor(pins, base, i + 1, acc != pins[base + i].report_analog_active)
    } else {
        report_xor(pins, base, i + 1, acc)
    }
}

/// OR aggregate of the digital reporting flags over the 8 pins of a port.
pub open spec fn report_or(pins: Seq<PinV>, base: int, i: int, acc: bool) -> bool
    decreases 8 - i,
{
    if i < 0 || i >= 8 {
        acc
    } else if base + i < pins.len() {
        report_or(pins, base, i + 1, acc || pins[base + i].report_digital_active)
    } else {
        report_or(pins, base, i + 1, acc)
    }
}

/// A Firmata board: the protocol core, fed with received bytes through
/// `poll` and handing the bytes to transmit back through `take_outbound`.
#[derive(Debug)]
pub struct Board {
    pub(crate) connected: bool,
    pub(crate) initial_messages_sent: bool,
    pub(crate) firmware_name: Option<String>,
    pub(crate) firmware_version: Option<String>,
    pub(crate) protocol_version: Option<String>,
    pub(crate) pins: Vec<Pin>,
    pub(crate) i2c_data: Vec<I2CReply>,
    pub(crate) buffer: Vec<u8>,
    pub(crate) outbound: Vec<u8>,
}

impl View for Board {
    type V = BoardV;

    closed spec fn view(&self) -> BoardV {
        BoardV {
            connected: self.connected,
            initial_messages_sent: self.initial_messages_sent,
            firmware_name: self.firmware_name.deep_view(),
            firmware_version: self.firmware_version.deep_view(),
            protocol_version: self.protocol_version.deep_view(),
            pins: self.pins.deep_view(),
            i2c_data: self.i2c_data.deep_view(),
            buffer: self.buffer@,
            outbound: self.outbound@,
        }
    }
}

impl Board {
    /// A fresh board: connected, with no pins, no firmware metadata, and
    /// empty buffers.
    pub fn new() -> (b: Board)
        ensures
            b@ == BoardV::init(),
    {
        let b = Board {
            connected: true,
            initial_messages_sent: false,
            firmware_name: None,
            firmware_version: None,
            protocol_version: None,
            pins: Vec::new(),
            i2c_data: Vec::new(),
            buffer: Vec::new(),
            outbound: Vec::new(),
        };
        proof {
            assert(b@ =~= BoardV::init());
        }
        b
    }

    /// Issue the cooperative halt. Later `write` and `poll` calls fail with
    /// `Disconnected`; a second `disconnect` does too.
    pub fn disconnect(&mut self) -> (r: Result<(), Error>)
        ensures
            old(self)@.connected ==> r is Ok && final(self)@ == (BoardV {
                connected: false,
                ..old(self)@
            }),
            !old(self)@.connected ==> (r matches Err(e) && e@ == ErrorV::Disconnected
                && final(self)@ == old(self)@),
    {
        if !self.connected {
            return Err(Error::Disconnected);
        }
        self.connected = false;
        Ok(())
    }

    /// Whether the connection is established: the initial negotiation was
    /// dispatched, the pin table is known, and no halt was issued.
    pub fn is_ready(&self) -> (r: bool)
        ensures
            r == (self@.initial_messages_sent && self@.pins.len() > 0 && self@.connected),
    {
        self.initial_messages_sent && self.pins.len() > 0 && self.connected
    }

    /// Get all pins that the board has access to.
    pub fn get_all_pins(&self) -> (r: &Vec<Pin>)
        ensures
            r.deep_view() == self@.pins,
    {
        &self.pins
    }

    /// Get a pin from the board.
    pub fn get_pin(&self, pin: usize) -> (r: Option<&Pin>)
        ensures
            match r {
                Some(p) => pin < self@.pins.len() && p@ == self@.pins[pin as int],
                None => pin >= self@.pins.len(),
            },
    {
        if pin < self.pins.len() {
            Some(&self.pins[pin])
        } else {
            None
        }
    }

    /// Get the raw I2C replies that have been read from the board.
    pub fn get_i2c_data(&self) -> (r: &Vec<I2CReply>)
        ensures
            r.deep_view() == self@.i2c_data,
    {
        &self.i2c_data
    }

    /// Get the current Firmata protocol version.
    pub fn get_protocol_version(&self) -> (r: Option<&String>)
        ensures
            match r {
                Some(v) => self@.protocol_version matches Some(x) && x == v@,
                None => self@.protocol_version is None,
            },
    {
        self.protocol_version.as_ref()
    }

    /// Get the firmware name.
    pub fn get_firmware_name(&self) -> (r: Option<&String>)
        ensures
            match r {
                Some(v) => self@.firmware_name matches Some(x) && x == v@,
                None => self@.firmware_name is None,
            },
    {
        self.firmware_name.as_ref()
    }

    /// Get the firmware version.
    pub fn get_firmware_version(&self) -> (r: Option<&String>)
        ensures
            match r {
                Some(v) => self@.firmware_version matches Some(x) && x == v@,
                None => self@.firmware_version is None,
            },
    {
        self.firmware_version.as_ref()
    }

    /// Take the bytes queued for the transport, in submission order.
    pub fn take_outbound(&mut self) -> (r: Vec<u8>)
        ensures
            r@ == old(self)@.outbound,
            final(self)@ == (BoardV { outbound: Seq::empty(), ..old(self)@ }),
    {
        let ghost s0 = self@;
        let r = vec_skip(&self.outbound, 0);
        self.outbound = Vec::new();
        proof {
            assert(r@ =~= s0.outbound);
            assert(self@ =~= (BoardV { outbound: Seq::empty(), ..s0 }));
        }
        r
    }

    /// Queue `bytes` for the transport, or fail when disconnected.
    pub(crate) fn send(&mut self, bytes: &[u8]) -> (r: Result<(), Error>)
        ensures
            old(self)@.connected ==> r is Ok && final(self)@ == (BoardV {
                outbound: old(self)@.outbound + bytes@,
                ..old(self)@
            }),
            !old(self)@.connected ==> (r matches Err(e) && e@ == ErrorV::Disconnected
                && final(self)@ == old(self)@),
    {
        if !self.connected {
            return Err(Error::Disconnected);
        }
        vec_extend(&mut self.outbound, bytes);
        Ok(())
    }
}

/// `seven_bit_pairs` distributes over appending one byte.
proof fn lemma_seven_bit_pairs_push(data: Seq<u8>, x: u8)
    ensures
        seven_bit_pairs(data.push(x)) == seven_bit_pairs(data) + seq![x & 0x7F, (x >> 7) & 0x7F],
    decreases data.len(),
{
    reveal_with_fuel(seven_bit_pairs, 3);
    if data.len() == 0 {
        assert(data.push(x).skip(1) =~= Seq::empty());
        assert(data.push(x)[0] == x);
        assert(seven_bit_pairs(data.push(x)) =~= seven_bit_pairs(data) + seq![
            x & 0x7F,
            (x >> 7) & 0x7F,
        ]);
    } else {
        assert(data.push(x).skip(1) =~= data.skip(1).push(x));
        lemma_seven_bit_pairs_push(data.skip(1), x);
        assert(data.push(x)[0] == data[0]);
        assert(seven_bit_pairs(data.push(x)) == seq![data[0] & 0x7F, (data[0] >> 7) & 0x7F]
            + seven_bit_pairs(data.skip(1).push(x)));
        assert(seven_bit_pairs(data.push(x)) =~= seven_bit_pairs(data) + seq![
            x & 0x7F,
            (x >> 7) & 0x7F,
        ]);
    }
}

impl Board {
    /// Set the mode of the specified pin. The mode must be one of the pin's
    /// supported modes; the pin table is updated before the command is sent.
    pub fn set_pin_mode(&mut self, pin_index: u8, mode: u8) -> (r: Result<(), Error>)
        ensures
            ({
                let s0 = old(self)@;
                if pin_index as int >= s0.pins.len() {
                    &&& final(self)@ == s0
                    &&& (r matches Err(e) && e@ == (ErrorV::PinOutOfBounds {
                        pin: pin_index,
                        len: s0.pins.len() as nat,
                        source: "set_pin_mode"@,
                    }))
                } else if !s0.pins[pin_index as int].modes.contains(mode) {
                    &&& final(self)@ == s0
                    &&& (r matches Err(e) && e@ == (ErrorV::InvalidPinMode {
                        pin: pin_index,
                        modes: s0.pins[pin_index as int].modes,
                    }))
                } else {
                    let s1 = BoardV {
                        pins: s0.pins.update(
                            pin_index as int,
                            PinV { mode: mode, ..s0.pins[pin_index as int] },
                        ),
                        ..s0
                    };
                    if s0.connected {
                        &&& r is Ok
                        &&& final(self)@ == (BoardV {
                            outbound: s1.outbound + seq![SET_PIN_MODE, pin_index, mode],
                            ..s1
                        })
                    } else {
                        &&& (r matches Err(e) && e@ == ErrorV::Disconnected)
                        &&& final(self)@ == s1
                    }
                }
            }),
    {
        let ghost s0 = self@;
        if (pin_index as usize) < self.pins.len() {
            if !modes_contains(&self.pins[pin_index as usize].modes, mode) {
                let modes = vec_skip(&self.pins[pin_index as usize].modes, 0);
                proof {
                    assert(modes@ =~= s0.pins[pin_index as int].modes);
                }
                return Err(Error::InvalidPinMode { pin: pin_index, modes });
            }
            self.pins[pin_index as usize].mode = mode;
            proof {
                assert(self@.pins =~= s0.pins.update(
                    pin_index as int,
                    PinV { mode: mode, ..s0.pins[pin_index as int] },
                ));
            }
        } else {
            return Err(
                Error::PinOutOfBounds {
                    pin: pin_index,
                    len: self.pins.len(),
                    source: String::from_str("set_pin_mode"),
                },
            );
        }
        self.send(&[SET_PIN_MODE, pin_index, mode])
    }

    /// Query the board for available analog pins.
    pub fn query_analog_mapping(&mut self) -> (r: Result<(), Error>)
        ensures
            old(self)@.connected ==> r is Ok && final(self)@ == (BoardV {
                outbound: old(self)@.outbound + seq![START_SYSEX, ANALOG_MAPPING_QUERY, END_SYSEX],
                ..old(self)@
            }),
            !old(self)@.connected ==> (r matches Err(e) && e@ == ErrorV::Disconnected
                && final(self)@ == old(self)@),
    {
        self.send(&[START_SYSEX, ANALOG_MAPPING_QUERY, END_SYSEX])
    }

    /// Query the board for all available capabilities.
    pub fn query_capabilities(&mut self) -> (r: Result<(), Error>)
        ensures
            old(self)@.connected ==> r is Ok && final(self)@ == (BoardV {
                outbound: old(self)@.outbound + seq![START_SYSEX, CAPABILITY_QUERY, END_SYSEX],
                ..old(self)@
            }),
            !old(self)@.connected ==> (r matches Err(e) && e@ == ErrorV::Disconnected
                && final(self)@ == old(self)@),
    {
        self.send(&[START_SYSEX, CAPABILITY_QUERY, END_SYSEX])
    }

    /// Query the board for current firmware and protocol information.
    pub fn report_firmware(&mut self) -> (r: Result<(), Error>)
        ensures
            old(self)@.connected ==> r is Ok && final(self)@ == (BoardV {
                outbound: old(self)@.outbound + seq![START_SYSEX, REPORT_FIRMWARE, END_SYSEX],
                ..old(self)@
            }),
            !old(self)@.connected ==> (r matches Err(e) && e@ == ErrorV::Disconnected
                && final(self)@ == old(self)@),
    {
        self.send(&[START_SYSEX, REPORT_FIRMWARE, END_SYSEX])
    }

    /// Configure the delay in microseconds for I2C devices that require a
    /// delay between writing to and reading from a register.
    pub fn i2c_config(&mut self, delay: u16) -> (r: Result<(), Error>)
        ensures
            old(self)@.connected ==> r is Ok && final(self)@ == (BoardV {
                outbound: old(self)@.outbound + seq![
                    START_SYSEX,
                    I2C_CONFIG,
                    (delay & 0xFF) as u8,
                    ((delay >> 8) & 0xFF) as u8,
                    END_SYSEX,
                ],
                ..old(self)@
            }),
            !old(self)@.connected ==> (r matches Err(e) && e@ == ErrorV::Disconnected
                && final(self)@ == old(self)@),
    {
        self.send(
            &[
                START_SYSEX,
                I2C_CONFIG,
                (delay & 0xFF) as u8,
                ((delay >> 8) & 0xFF) as u8,
                END_SYSEX,
            ],
        )
    }

    /// Read `size` bytes from the I2C device at `address`.
    pub fn i2c_read(&mut self, address: u8, size: u8) -> (r: Result<(), Error>)
        ensures
            old(self)@.connected ==> r is Ok && final(self)@ == (BoardV {
                outbound: old(self)@.outbound + seq![
                    START_SYSEX,
                    I2C_REQUEST,
                    address,
                    I2C_READ << 3,
                    size & SYSEX_REALTIME,
                    ((size as u16) >> 7) as u8 & SYSEX_REALTIME,
                    END_SYSEX,
                ],
                ..old(self)@
            }),
            !old(self)@.connected ==> (r matches Err(e) && e@ == ErrorV::Disconnected
                && final(self)@ == old(self)@),
    {
        self.send(
            &[
                START_SYSEX,
                I2C_REQUEST,
                address,
                I2C_READ << 3,
                size & SYSEX_REALTIME,
                ((size as u16) >> 7) as u8 & SYSEX_REALTIME,
                END_SYSEX,
            ],
        )
    }

    /// Write `data` to the I2C device at `address`, each byte split into its
    /// two 7-bit wire bytes.
    pub fn i2c_write(&mut self, address: u8, data: &[u8]) -> (r: Result<(), Error>)
        ensures
            old(self)@.connected ==> r is Ok && final(self)@ == (BoardV {
                outbound: old(self)@.outbound + (seq![
                    START_SYSEX,
                    I2C_REQUEST,
                    address,
                    I2C_WRITE << 3,
                ] + seven_bit_pairs(data@) + seq![END_SYSEX]),
                ..old(self)@
            }),
            !old(self)@.connected ==> (r matches Err(e) && e@ == ErrorV::Disconnected
                && final(self)@ == old(self)@),
    {
        let mut buf: Vec<u8> = Vec::new();
        buf.push(START_SYSEX);
        buf.push(I2C_REQUEST);
        buf.push(address);
        buf.push(I2C_WRITE << 3);
        proof {
            assert(buf@ =~= seq![START_SYSEX, I2C_REQUEST, address, I2C_WRITE << 3]
                + seven_bit_pairs(data@.subrange(0, 0)));
        }
        let mut i: usize = 0;
        while i < data.len()
            invariant
                i <= data@.len(),
                buf@ == seq![START_SYSEX, I2C_REQUEST, address, I2C_WRITE << 3]
                    + seven_bit_pairs(data@.subrange(0, i as int)),
            decreases data@.len() - i,
        {
            let datum = *slice_index_get(data, i);
            buf.push(datum & SYSEX_REALTIME);
            buf.push((datum >> 7) & SYSEX_REALTIME);
            proof {
                assert(data@.subrange(0, i + 1 as int) =~= data@.subrange(0, i as int).push(datum));
                lemma_seven_bit_pairs_push(data@.subrange(0, i as int), datum);
                assert(buf@ =~= seq![START_SYSEX, I2C_REQUEST, address, I2C_WRITE << 3]
                    + seven_bit_pairs(data@.subrange(0, i + 1 as int)));
            }
            i = i + 1;
        }
        buf.push(END_SYSEX);
        proof {
            assert(data@.subrange(0, data@.len() as int) =~= data@);
            assert(buf@ =~= seq![START_SYSEX, I2C_REQUEST, address, I2C_WRITE << 3]
                + seven_bit_pairs(data@) + seq![END_SYSEX]);
        }
        self.send(buf.as_slice())
    }
}

impl Board {
    /// Write `level` to the analog pin `pin`.
    pub fn analog_write(&mut self, pin: u8, level: u8) -> (r: Result<(), Error>)
        ensures
            ({
                let s0 = old(self)@;
                if pin as int >= s0.pins.len() {
                    &&& final(self)@ == s0
                    &&& (r matches Err(e) && e@ == (ErrorV::PinOutOfBounds {
                        pin,
                        len: s0.pins.len() as nat,
                        source: "analog_write"@,
                    }))
                } else {
                    let s1 = BoardV {
                        pins: s0.pins.update(
                            pin as int,
                            PinV { value: level as u16, ..s0.pins[pin as int] },
                        ),
                        ..s0
                    };
                    if s0.connected {
                        &&& r is Ok
                        &&& final(self)@ == (BoardV {
                            outbound: s1.outbound + seq![
                                ANALOG_MESSAGE | pin,
                                level & SYSEX_REALTIME,
                                ((level as u16) >> 7) as u8 & SYSEX_REALTIME,
                            ],
                            ..s1
                        })
                    } else {
                        &&& (r matches Err(e) && e@ == ErrorV::Disconnected)
                        &&& final(self)@ == s1
                    }
                }
            }),
    {
        let ghost s0 = self@;
        if (pin as usize) < self.pins.len() {
            self.pins[pin as usize].value = level as u16;
            proof {
                assert(self@.pins =~= s0.pins.update(
                    pin as int,
                    PinV { value: level as u16, ..s0.pins[pin as int] },
                ));
            }
        } else {
            return Err(
                Error::PinOutOfBounds {
                    pin,
                    len: self.pins.len(),
                    source: String::from_str("analog_write"),
                },
            );
        }
        self.send(
            &[
                ANALOG_MESSAGE | pin,
                level & SYSEX_REALTIME,
                ((level as u16) >> 7) as u8 & SYSEX_REALTIME,
            ],
        )
    }

    /// Write `level` to the digital pin `pin` and send the recomputed state
    /// of the pin's whole port.
    pub fn digital_write(&mut self, pin: u8, level: bool) -> (r: Result<(), Error>)
        ensures
            ({
                let s0 = old(self)@;
                if pin as int >= s0.pins.len() {
                    &&& final(self)@ == s0
                    &&& (r matches Err(e) && e@ == (ErrorV::PinOutOfBounds {
                        pin,
                        len: s0.pins.len() as nat,
                        source: "digital_write"@,
                    }))
                } else {
                    let s1 = BoardV {
                        pins: s0.pins.update(
                            pin as int,
                            PinV {
                                value: if level {
                                    1u16
                                } else {
                                    0u16
                                },
                                ..s0.pins[pin as int]
                            },
                        ),
                        ..s0
                    };
                    let value = port_bits(s1.pins, 8 * (pin as int / 8), 0, 0);
                    if s0.connected {
                        &&& r is Ok
                        &&& final(self)@ == (BoardV {
                            outbound: s1.outbound + seq![
                                DIGITAL_MESSAGE | (pin / 8),
                                value & SYSEX_REALTIME,
                                ((value as u16) >> 7) as u8 & SYSEX_REALTIME,
                            ],
                            ..s1
                        })
                    } else {
                        &&& (r matches Err(e) && e@ == ErrorV::Disconnected)
                        &&& final(self)@ == s1
                    }
                }
            }),
    {
        let ghost s0 = self@;
        let port: usize = (pin / 8) as usize;
        if (pin as usize) < self.pins.len() {
            self.pins[pin as usize].value = if level {
                1
            } else {
                0
            };
            proof {
                assert(self@.pins =~= s0.pins.update(
                    pin as int,
                    PinV {
                        value: if level {
                            1u16
                        } else {
                            0u16
                        },
                        ..s0.pins[pin as int]
                    },
                ));
            }
        } else {
            return Err(
                Error::PinOutOfBounds {
                    pin,
                    len: self.pins.len(),
                    source: String::from_str("digital_write"),
                },
            );
        }
        let mut value: u8 = 0;
        let mut index: usize = 0;
        while index < 8 && 8 * port + index < self.pins.len()
            invariant
                index <= 8,
                port == pin as int / 8,
                self@ == (BoardV {
                    pins: s0.pins.update(
                        pin as int,
                        PinV {
                            value: if level {
                                1u16
                            } else {
                                0u16
                            },
                            ..s0.pins[pin as int]
                        },
                    ),
                    ..s0
                }),
                port_bits(self@.pins, 8 * (pin as int / 8), index as int, value) == port_bits(
                    self@.pins,
                    8 * (pin as int / 8),
                    0,
                    0,
                ),
            decreases 8 - index,
        {
            if self.pins[8 * port + index].value != 0 {
                value = value | (1u8 << (index as u8));
            }
            index = index + 1;
        }
        self.send(
            &[
                DIGITAL_MESSAGE | (pin / 8),
                value & SYSEX_REALTIME,
                ((value as u16) >> 7) as u8 & SYSEX_REALTIME,
            ],
        )
    }

    /// Set the analog reporting state of the specified pin. A repeated state
    /// is a no-op; otherwise the port's aggregate is recomputed and sent.
    ///
    /// The analog aggregate XORs the flags of the port's pins where the
    /// digital one ORs them. The asymmetry is deliberate, for protocol
    /// parity with deployed firmware; OR would be the semantically
    /// sensible aggregation for both.
    pub fn report_analog(&mut self, pin: u8, state: bool) -> (r: Result<(), Error>)
        ensures
            ({
                let s0 = old(self)@;
                if pin as int >= s0.pins.len() {
                    &&& final(self)@ == s0
                    &&& (r matches Err(e) && e@ == (ErrorV::PinOutOfBounds {
                        pin,
                        len: s0.pins.len() as nat,
                        source: "report_analog"@,
                    }))
                } else if s0.pins[pin as int].report_analog_active == state {
                    &&& final(self)@ == s0
                    &&& r is Ok
                } else {
                    let s1 = BoardV {
                        pins: s0.pins.update(
                            pin as int,
                            PinV { report_analog_active: state, ..s0.pins[pin as int] },
                        ),
                        ..s0
                    };
                    let new_state = report_xor(s1.pins, 8 * (pin as int / 8), 0, false);
                    if s0.connected {
                        &&& r is Ok
                        &&& final(self)@ == (BoardV {
                            outbound: s1.outbound + seq![
                                REPORT_ANALOG | (pin / 8),
                                if new_state {
                                    1u8
                                } else {
                                    0u8
                                },
                            ],
                            ..s1
                        })
                    } else {
                        &&& (r matches Err(e) && e@ == ErrorV::Disconnected)
                        &&& final(self)@ == s1
                    }
                }
            }),
    {
        let ghost s0 = self@;
        if (pin as usize) >= self.pins.len() {
            return Err(
                Error::PinOutOfBounds {
                    pin,
                    len: self.pins.len(),
                    source: String::from_str("report_analog"),
                },
            );
        }
        if self.pins[pin as usize].report_analog_active == state {
            return Ok(());
        }
        self.pins[pin as usize].report_analog_active = state;
        proof {
            assert(self@.pins =~= s0.pins.update(
                pin as int,
                PinV { report_analog_active: state, ..s0.pins[pin as int] },
            ));
        }
        let port: usize = (pin / 8) as usize;
        let mut new_state: bool = false;
        let mut index: usize = 0;
        while index < 8
            invariant
                index <= 8,
                port == pin as int / 8,
                self@ == (BoardV {
                    pins: s0.pins.update(
                        pin as int,
                        PinV { report_analog_active: state, ..s0.pins[pin as int] },
                    ),
                    ..s0
                }),
                report_xor(self@.pins, 8 * (pin as int / 8), index as int, new_state) == report_xor(
                    self@.pins,
                    8 * (pin as int / 8),
                    0,
                    false,
                ),
            decreases 8 - index,
        {
            if 8 * port + index < self.pins.len() {
                new_state = new_state != self.pins[8 * port + index].report_analog_active;
            }
            index = index + 1;
        }
        self.send(
            &[
                REPORT_ANALOG | (pin / 8),
                if new_state {
                    1
                } else {
                    0
                },
            ],
        )
    }

    /// Set the digital reporting state of the specified pin. A repeated state
    /// is a no-op; otherwise the port's aggregate is recomputed and sent.
    pub fn report_digital(&mut self, pin: u8, state: bool) -> (r: Result<(), Error>)
        ensures
            ({
                let s0 = old(self)@;
                if pin as int >= s0.pins.len() {
                    &&& final(self)@ == s0
                    &&& (r matches Err(e) && e@ == (ErrorV::PinOutOfBounds {
                        pin,
                        len: s0.pins.len() as nat,
                        source: "report_digital"@,
                    }))
                } else if s0.pins[pin as int].report_digital_active == state {
                    &&& final(self)@ == s0
                    &&& r is Ok
                } else {
                    let s1 = BoardV {
                        pins: s0.pins.update(
                            pin as int,
                            PinV { report_digital_active: state, ..s0.pins[pin as int] },
                        ),
                        ..s0
                    };
                    let new_state = report_or(s1.pins, 8 * (pin as int / 8), 0, false);
                    if s0.connected {
                        &&& r is Ok
                        &&& final(self)@ == (BoardV {
                            outbound: s1.outbound + seq![
                                REPORT_DIGITAL | (pin / 8),
                                if new_state {
                                    1u8
                                } else {
                                    0u8
                                },
                            ],
                            ..s1
                        })
                    } else {
                        &&& (r matches Err(e) && e@ == ErrorV::Disconnected)
                        &&& final(self)@ == s1
                    }
                }
            }),
    {
        let ghost s0 = self@;
        if (pin as usize) >= self.pins.len() {
            return Err(
                Error::PinOutOfBounds {
                    pin,
                    len: self.pins.len(),
                    source: String::from_str("report_digital"),
                },
            );
        }
        if self.pins[pin as usize].report_digital_active == state {
            return Ok(());
        }
        self.pins[pin as usize].report_digital_active = state;
        proof {
            assert(self@.pins =~= s0.pins.update(
                pin as int,
                PinV { report_digital_active: state, ..s0.pins[pin as int] },
            ));
        }
        let port: usize = (pin / 8) as usize;
        let mut new_state: bool = false;
        let mut index: usize = 0;
        while index < 8
            invariant
                index <= 8,
                port == pin as int / 8,
                self@ == (BoardV {
                    pins: s0.pins.update(
                        pin as int,
                        PinV { report_digital_active: state, ..s0.pins[pin as int] },
                    ),
                    ..s0
                }),
                report_or(self@.pins, 8 * (pin as int / 8), index as int, new_state) == report_or(
                    self@.pins,
                    8 * (pin as int / 8),
                    0,
                    false,
                ),
            decreases 8 - index,
        {
            if 8 * port + index < self.pins.len() {
                new_state = new_state || self.pins[8 * port + index].report_digital_active;
            }
            index = index + 1;
        }
        self.send(
            &[
                REPORT_DIGITAL | (pin / 8),
                if new_state {
                    1
                } else {
                    0
                },
            ],
        )
    }
}

impl Board {
    /// Decode one digital message from the front of the buffer.
    fn handle_digital(&mut self, messages: &mut Vec<Message>)
        requires
            old(self)@.buffer.len() >= 3,
            DIGITAL_MESSAGE <= old(self)@.buffer[0] <= DIGITAL_MESSAGE_BOUND,
        ensures
            step(old(self)@) is Next,
            step(old(self)@)->Next_next == final(self)@,
            final(messages).deep_view() == old(messages).deep_view() + step(
                old(self)@,
            )->Next_emitted,
    {
        let ghost pre = self@;
        let ghost m0 = messages.deep_view();
        let b0 = self.buffer[0];
        let b1 = self.buffer[1];
        let b2 = self.buffer[2];
        let port: u8 = b0 & 0x0F;
        proof {
            assert(b0 & 0x0F <= 15) by (bit_vector);
        }
        let value: u16 = (b1 as u16) | ((b2 as u16) << 7);
        let mut updates: Vec<(u8, bool)> = Vec::new();
        let mut index: usize = 0;
        while index < 8
            invariant
                index <= 8,
                port <= 15,
                pre.buffer.len() >= 3,
                port == pre.buffer[0] & 0x0F,
                value == combine14(pre.buffer[1], pre.buffer[2]),
                self@ == (BoardV { pins: self@.pins, ..pre }),
                digital_scan(self@.pins, port, value, index as int, updates@) == digital_scan(
                    pre.pins,
                    port,
                    value,
                    0,
                    Seq::empty(),
                ),
            decreases 8 - index,
        {
            let pin_index: u8 = 8 * port + (index as u8);
            proof {
                assert(8 * (port as int) + (index as int) == pin_index as int);
            }
            if (pin_index as usize) < self.pins.len() {
                let mode = self.pins[pin_index as usize].mode;
                if mode == PIN_MODE_INPUT || mode == PIN_MODE_PULLUP {
                    let ghost pcur = self@.pins;
                    let ghost ucur = updates@;
                    proof {
                        assert(((index as u16) & 0x07) < 16) by (bit_vector);
                    }
                    let new_value: u16 = (value >> ((index as u16) & 0x07)) & 0x01;
                    if new_value != self.pins[pin_index as usize].value {
                        updates.push((pin_index, new_value != 0));
                    }
                    self.pins[pin_index as usize].value = new_value;
                    proof {
                        assert(self@.pins =~= pcur.update(
                            pin_index as int,
                            PinV { value: new_value, ..pcur[pin_index as int] },
                        ));
                        assert(digital_scan(self@.pins, port, value, index + 1 as int, updates@)
                            == digital_scan(pcur, port, value, index as int, ucur));
                    }
                }
            }
            index = index + 1;
        }
        let ghost uv = updates@;
        self.buffer = vec_skip(&self.buffer, 3);
        proof {
            assert((self@.pins, uv) =~~= digital_scan(pre.pins, port, value, 0, Seq::empty()));
            assert(step(pre) is Next);
            assert(step(pre)->Next_next =~~= self@);
        }
        if updates.len() > 0 {
            messages.push(Message::Digital(updates));
            proof {
                assert(step(pre)->Next_emitted =~~= seq![MessageV::Digital(uv)]);
                assert(messages.deep_view() =~= m0 + step(pre)->Next_emitted);
            }
        } else {
            proof {
                assert(step(pre)->Next_emitted =~~= Seq::<MessageV>::empty());
                assert(messages.deep_view() =~= m0 + step(pre)->Next_emitted);
            }
        }
    }

    /// Decode one analog-mapping response frame.
    fn handle_analog_mapping(&mut self, end: usize, messages: &mut Vec<Message>)
        requires
            1 <= end < old(self)@.buffer.len(),
            old(self)@.buffer[0] == START_SYSEX,
            old(self)@.buffer[1] == ANALOG_MAPPING_RESPONSE,
            old(self)@.buffer[end as int] == END_SYSEX,
            forall|k: int| 0 <= k < end ==> old(self)@.buffer[k] != END_SYSEX,
        ensures
            step_sysex(old(self)@, end as int) is Next,
            step_sysex(old(self)@, end as int)->Next_next == final(self)@,
            final(messages).deep_view() == old(messages).deep_view() + step_sysex(
                old(self)@,
                end as int,
            )->Next_emitted,
    {
        let ghost pre = self@;
        let ghost m0 = messages.deep_view();
        let ghost sysex = pre.buffer.take(end + 1);
        let mut idx: usize = 2;
        while idx < end
            invariant
                2 <= idx <= end,
                end < pre.buffer.len(),
                sysex == pre.buffer.take(end + 1),
                forall|k: int| 0 <= k < end ==> pre.buffer[k] != END_SYSEX,
                self@ == (BoardV { pins: self@.pins, ..pre }),
                analog_mark(self@.pins, sysex, idx as int) == analog_mark(pre.pins, sysex, 2),
            decreases end - idx,
        {
            let byte = self.buffer[idx];
            proof {
                assert(sysex[idx as int] == pre.buffer[idx as int]);
            }
            if byte != PIN_MODE_IGNORE {
                if idx - 2 < self.pins.len() {
                    let ghost pcur = self@.pins;
                    self.pins[idx - 2].analog = true;
                    proof {
                        assert(self@.pins =~= pcur.update(
                            idx - 2 as int,
                            PinV { analog: true, ..pcur[idx - 2 as int] },
                        ));
                        assert(analog_mark(self@.pins, sysex, idx + 1 as int) == analog_mark(
                            pcur,
                            sysex,
                            idx as int,
                        ));
                    }
                }
            }
            idx = idx + 1;
        }
        proof {
            assert(sysex[end as int] == END_SYSEX);
            assert(analog_mark(self@.pins, sysex, end as int) == self@.pins);
        }
        proof {
            assert(self@.buffer == pre.buffer);
        }
        let blen = self.buffer.len();
        proof {
            assert(end < blen);
        }
        self.buffer = vec_skip(&self.buffer, end + 1);
        messages.push(Message::AnalogMappingResponse);
        proof {
            assert(step_sysex(pre, end as int) is Next);
            assert(step_sysex(pre, end as int)->Next_next =~~= self@);
            assert(messages.deep_view() =~= m0 + step_sysex(pre, end as int)->Next_emitted);
        }
    }

    /// Decode one capability response frame, rebuilding the pin table.
    fn handle_capability(&mut self, end: usize, messages: &mut Vec<Message>) -> (r: Option<Error>)
        requires
            1 <= end < old(self)@.buffer.len(),
            old(self)@.buffer[0] == START_SYSEX,
            old(self)@.buffer[1] == CAPABILITY_RESPONSE,
            old(self)@.buffer[end as int] == END_SYSEX,
            forall|k: int| 0 <= k < end ==> old(self)@.buffer[k] != END_SYSEX,
        ensures
            match r {
                None => {
                    &&& step_sysex(old(self)@, end as int) is Next
                    &&& step_sysex(old(self)@, end as int)->Next_next == final(self)@
                    &&& final(messages).deep_view() == old(messages).deep_view() + step_sysex(
                        old(self)@,
                        end as int,
                    )->Next_emitted
                },
                Some(e) => {
                    &&& step_sysex(old(self)@, end as int) is Fail
                    &&& step_sysex(old(self)@, end as int)->Fail_next == final(self)@
                    &&& e@ == step_sysex(old(self)@, end as int)->Fail_error
                },
            },
    {
        let ghost pre = self@;
        let ghost m0 = messages.deep_view();
        let ghost sysex = pre.buffer.take(end + 1);
        let mut new_pins: Vec<Pin> = Vec::new();
        new_pins.push(Pin::default_with_report_digital_active());
        new_pins.push(Pin::default_with_report_digital_active());
        proof {
            assert(new_pins.deep_view() =~= seq![default_reserved_pin(), default_reserved_pin()]);
            assert(new_pins.deep_view().skip(2) =~= Seq::<PinV>::empty());
        }
        let mut modes: Vec<u8> = Vec::new();
        let mut resolution: Option<u8> = None;
        let blen0 = self.buffer.len();
        proof {
            assert(pre.buffer.len() <= usize::MAX);
        }
        let mut idx: usize = 4;
        let mut short = false;
        while idx < end
            invariant_except_break
                4 <= idx <= end + 2,
                end < pre.buffer.len(),
                pre.buffer.len() <= usize::MAX,
                sysex == pre.buffer.take(end + 1),
                forall|k: int| 0 <= k < end ==> pre.buffer[k] != END_SYSEX,
                self@ == pre,
                !short,
                seq![default_reserved_pin(), default_reserved_pin()] + new_pins.deep_view().skip(2)
                    == new_pins.deep_view(),
                (modes@.len() == 0) == (resolution is None),
                capability_scan(
                    sysex,
                    idx as int,
                    end as int,
                    modes@,
                    resolution,
                    new_pins.deep_view().skip(2),
                ) == capability_scan(sysex, 4, end as int, Seq::empty(), None, Seq::empty()),
            ensures
                self@ == pre,
                short ==> capability_scan(sysex, 4, end as int, Seq::empty(), None, Seq::empty())
                    is None,
                !short ==> capability_scan(sysex, 4, end as int, Seq::empty(), None, Seq::empty())
                    == Some(new_pins.deep_view().skip(2)),
                !short ==> seq![default_reserved_pin(), default_reserved_pin()]
                    + new_pins.deep_view().skip(2) == new_pins.deep_view(),
            decreases end + 2 - idx,
        {
            let byte = self.buffer[idx];
            proof {
                assert(sysex[idx as int] == pre.buffer[idx as int]);
            }
            if byte == 127 {
                if modes.len() == 0 {
                    short = true;
                    proof {
                        assert(capability_scan(
                            sysex,
                            idx as int,
                            end as int,
                            modes@,
                            resolution,
                            new_pins.deep_view().skip(2),
                        ) is None);
                    }
                    break;
                }
                let mode0 = modes[0];
                let res: u8 = if let Some(rr) = resolution {
                    rr
                } else {
                    0
                };
                proof {
                    assert(resolution is Some);
                }
                let ghost od = new_pins.deep_view();
                let ghost acc0 = new_pins.deep_view().skip(2);
                let ghost modes0 = modes@;
                let taken_modes = modes;
                modes = Vec::new();
                resolution = None;
                new_pins.push(
                    Pin {
                        analog: false,
                        mode: mode0,
                        modes: taken_modes,
                        report_analog_active: false,
                        report_digital_active: false,
                        resolution: res,
                        value: 0,
                    },
                );
                proof {
                    let p = PinV {
                        analog: false,
                        mode: modes0[0],
                        modes: modes0,
                        report_analog_active: false,
                        report_digital_active: false,
                        resolution: res,
                        value: 0,
                    };
                    assert(new_pins.deep_view() =~= od.push(p));
                    assert(new_pins.deep_view().skip(2) =~= acc0.push(p));
                    assert(seq![default_reserved_pin(), default_reserved_pin()]
                        + new_pins.deep_view().skip(2) =~= new_pins.deep_view());
                    assert(capability_scan(sysex, idx + 1 as int, end as int, modes@, resolution,
                        new_pins.deep_view().skip(2)) == capability_scan(
                        sysex,
                        idx as int,
                        end as int,
                        modes0,
                        Some(res),
                        acc0,
                    ));
                }
                idx = idx + 1;
            } else {
                let ghost modes0 = modes@;
                let ghost res0 = resolution;
                modes.push(byte);
                if resolution.is_none() {
                    resolution = Some(self.buffer[idx + 1]);
                }
                proof {
                    assert(sysex[idx + 1 as int] == pre.buffer[idx + 1 as int]);
                    assert(modes@ =~= modes0.push(byte));
                    assert(capability_scan(sysex, idx + 2 as int, end as int, modes@, resolution,
                        new_pins.deep_view().skip(2)) == capability_scan(
                        sysex,
                        idx as int,
                        end as int,
                        modes0,
                        res0,
                        new_pins.deep_view().skip(2),
                    ));
                }
                idx = idx + 2;
            }
        }
        if short {
            proof {
                assert(step_sysex(pre, end as int) is Fail);
                assert(step_sysex(pre, end as int)->Fail_next == pre);
                assert(step_sysex(pre, end as int)->Fail_error == ErrorV::MessageTooShort);
            }
            return Some(Error::MessageTooShort);
        }
        self.pins = new_pins;
        let blen = self.buffer.len();
        proof {
            assert(end < blen);
        }
        self.buffer = vec_skip(&self.buffer, end + 1);
        messages.push(Message::CapabilityResponse);
        proof {
            assert(step_sysex(pre, end as int) is Next);
            assert(step_sysex(pre, end as int)->Next_next =~~= self@);
            assert(messages.deep_view() =~= m0 + step_sysex(pre, end as int)->Next_emitted);
        }
        None
    }

    /// Decode one firmware report frame: version, then an optional UTF-8 name.
    fn handle_report_firmware(&mut self, end: usize, messages: &mut Vec<Message>) -> (r: Option<
        Error,
    >)
        requires
            1 <= end < old(self)@.buffer.len(),
            old(self)@.buffer[0] == START_SYSEX,
            old(self)@.buffer[1] == REPORT_FIRMWARE,
            old(self)@.buffer[end as int] == END_SYSEX,
            forall|k: int| 0 <= k < end ==> old(self)@.buffer[k] != END_SYSEX,
        ensures
            match r {
                None => {
                    &&& step_sysex(old(self)@, end as int) is Next
                    &&& step_sysex(old(self)@, end as int)->Next_next == final(self)@
                    &&& final(messages).deep_view() == old(messages).deep_view() + step_sysex(
                        old(self)@,
                        end as int,
                    )->Next_emitted
                },
                Some(e) => {
                    &&& step_sysex(old(self)@, end as int) is Fail
                    &&& step_sysex(old(self)@, end as int)->Fail_next == final(self)@
                    &&& e@ == step_sysex(old(self)@, end as int)->Fail_error
                },
            },
    {
        let ghost pre = self@;
        let ghost m0 = messages.deep_view();
        if end < 4 {
            proof {
                assert(step_sysex(pre, end as int) is Fail);
            }
            return Some(Error::MessageTooShort);
        }
        let major = self.buffer[2];
        let minor = self.buffer[3];
        let version = version_string(major, minor);
        messages.push(Message::ReportFirmwareVersion(version.clone()));
        self.firmware_version = Some(version);
        proof {
            assert(self@ =~~= (BoardV {
                firmware_version: Some(crate::text::version_text(pre.buffer[2], pre.buffer[3])),
                ..pre
            }));
        }
        if end > 4 {
            let name_vec = vec_subrange(&self.buffer, 4, end);
            proof {
                assert(name_vec@ == pre.buffer.subrange(4, end as int));
            }
            match utf8_to_string(name_vec.as_slice()) {
                Some(name) => {
                    messages.push(Message::ReportFirmwareName(name.clone()));
                    self.firmware_name = Some(name);
                    let blen = self.buffer.len();
                    proof {
                        assert(end < blen);
                    }
                    self.buffer = vec_skip(&self.buffer, end + 1);
                    proof {
                        assert(step_sysex(pre, end as int) is Next);
                        assert(step_sysex(pre, end as int)->Next_next =~~= self@);
                        assert(messages.deep_view() =~= m0 + step_sysex(
                            pre,
                            end as int,
                        )->Next_emitted);
                    }
                    None
                },
                None => {
                    proof {
                        assert(step_sysex(pre, end as int) is Fail);
                        assert(step_sysex(pre, end as int)->Fail_next =~~= self@);
                        assert(step_sysex(pre, end as int)->Fail_error == ErrorV::Utf8);
                    }
                    Some(Error::Utf8)
                },
            }
        } else {
            let blen = self.buffer.len();
            proof {
                assert(end < blen);
            }
            self.buffer = vec_skip(&self.buffer, end + 1);
            proof {
                assert(step_sysex(pre, end as int) is Next);
                assert(step_sysex(pre, end as int)->Next_next =~~= self@);
                assert(messages.deep_view() =~= m0 + step_sysex(pre, end as int)->Next_emitted);
            }
            None
        }
    }

    /// Decode one I2C reply frame.
    fn handle_i2c_reply(&mut self, end: usize, messages: &mut Vec<Message>) -> (r: Option<Error>)
        requires
            1 <= end < old(self)@.buffer.len(),
            old(self)@.buffer[0] == START_SYSEX,
            old(self)@.buffer[1] == I2C_REPLY,
            old(self)@.buffer[end as int] == END_SYSEX,
            forall|k: int| 0 <= k < end ==> old(self)@.buffer[k] != END_SYSEX,
        ensures
            match r {
                None => {
                    &&& step_sysex(old(self)@, end as int) is Next
                    &&& step_sysex(old(self)@, end as int)->Next_next == final(self)@
                    &&& final(messages).deep_view() == old(messages).deep_view() + step_sysex(
                        old(self)@,
                        end as int,
                    )->Next_emitted
                },
                Some(e) => {
                    &&& step_sysex(old(self)@, end as int) is Fail
                    &&& step_sysex(old(self)@, end as int)->Fail_next == final(self)@
                    &&& e@ == step_sysex(old(self)@, end as int)->Fail_error
                },
            },
    {
        let ghost pre = self@;
        let ghost m0 = messages.deep_view();
        let ghost sysex = pre.buffer.take(end + 1);
        if end < 8 {
            proof {
                assert(step_sysex(pre, end as int) is Fail);
            }
            return Some(Error::MessageTooShort);
        }
        let address = self.buffer[2] | (self.buffer[3] << 7);
        let register = self.buffer[4] | (self.buffer[5] << 7);
        let mut data: Vec<u8> = Vec::new();
        data.push(self.buffer[6] | (self.buffer[7] << 7));
        proof {
            assert(data@ =~= seq![combine7(pre.buffer[6], pre.buffer[7])]);
        }
        let blen0 = self.buffer.len();
        proof {
            assert(pre.buffer.len() <= usize::MAX);
        }
        let mut idx: usize = 8;
        while idx + 1 < end
            invariant
                8 <= idx <= end,
                end < pre.buffer.len(),
                pre.buffer.len() <= usize::MAX,
                sysex == pre.buffer.take(end + 1),
                self@ == pre,
                i2c_pairs(sysex, idx as int, end as int, data@) == i2c_pairs(
                    sysex,
                    8,
                    end as int,
                    seq![combine7(pre.buffer[6], pre.buffer[7])],
                ),
            decreases end + 2 - idx,
        {
            let ghost d0 = data@;
            let x = self.buffer[idx] | (self.buffer[idx + 1] << 7);
            data.push(x);
            proof {
                assert(sysex[idx as int] == pre.buffer[idx as int]);
                assert(sysex[idx + 1 as int] == pre.buffer[idx + 1 as int]);
                assert(data@ =~= d0.push(combine7(
                    pre.buffer[idx as int],
                    pre.buffer[idx + 1 as int],
                )));
                assert(i2c_pairs(sysex, idx + 2 as int, end as int, data@) == i2c_pairs(
                    sysex,
                    idx as int,
                    end as int,
                    d0,
                ));
            }
            idx = idx + 2;
        }
        let ghost ic0 = self@.i2c_data;
        let ghost dv = data@;
        self.i2c_data.push(I2CReply { address, register, data });
        let blen = self.buffer.len();
        proof {
            assert(end < blen);
        }
        self.buffer = vec_skip(&self.buffer, end + 1);
        messages.push(Message::I2CReply);
        proof {
            assert(self@.i2c_data =~= ic0.push(
                I2CReplyV {
                    address: combine7(pre.buffer[2], pre.buffer[3]),
                    register: combine7(pre.buffer[4], pre.buffer[5]),
                    data: dv,
                },
            ));
            assert(step_sysex(pre, end as int) is Next);
            assert(step_sysex(pre, end as int)->Next_next =~~= self@);
            assert(messages.deep_view() =~= m0 + step_sysex(pre, end as int)->Next_emitted);
        }
        None
    }

    /// Decode one pin state response frame.
    fn handle_pin_state(&mut self, end: usize, messages: &mut Vec<Message>) -> (r: Option<Error>)
        requires
            1 <= end < old(self)@.buffer.len(),
            old(self)@.buffer[0] == START_SYSEX,
            old(self)@.buffer[1] == PIN_STATE_RESPONSE,
            old(self)@.buffer[end as int] == END_SYSEX,
            forall|k: int| 0 <= k < end ==> old(self)@.buffer[k] != END_SYSEX,
        ensures
            match r {
                None => {
                    &&& step_sysex(old(self)@, end as int) is Next
                    &&& step_sysex(old(self)@, end as int)->Next_next == final(self)@
                    &&& final(messages).deep_view() == old(messages).deep_view() + step_sysex(
                        old(self)@,
                        end as int,
                    )->Next_emitted
                },
                Some(e) => {
                    &&& step_sysex(old(self)@, end as int) is Fail
                    &&& step_sysex(old(self)@, end as int)->Fail_next == final(self)@
                    &&& e@ == step_sysex(old(self)@, end as int)->Fail_error
                },
            },
    {
        let ghost pre = self@;
        let ghost m0 = messages.deep_view();
        if end == 3 {
            let blen = self.buffer.len();
            proof {
                assert(end < blen);
            }
            self.buffer = vec_skip(&self.buffer, end + 1);
            messages.push(Message::PinStateResponse);
            proof {
                assert(step_sysex(pre, end as int) is Next);
                assert(step_sysex(pre, end as int)->Next_next =~~= self@);
                assert(messages.deep_view() =~= m0 + step_sysex(pre, end as int)->Next_emitted);
            }
            return None;
        }
        if end < 5 {
            proof {
                assert(step_sysex(pre, end as int) is Fail);
            }
            return Some(Error::MessageTooShort);
        }
        let pin = self.buffer[2];
        if (pin as usize) >= self.pins.len() {
            proof {
                assert(step_sysex(pre, end as int) is Fail);
                assert(step_sysex(pre, end as int)->Fail_error == (ErrorV::PinOutOfBounds {
                    pin,
                    len: pre.pins.len() as nat,
                    source: "poll : PIN_STATE_RESPONSE"@,
                }));
            }
            return Some(
                Error::PinOutOfBounds {
                    pin,
                    len: self.pins.len(),
                    source: String::from_str("poll : PIN_STATE_RESPONSE"),
                },
            );
        }
        let mode = self.buffer[3];
        let value = self.buffer[4];
        let ghost p0 = self@.pins;
        self.pins[pin as usize].mode = mode;
        self.pins[pin as usize].value = value as u16;
        proof {
            assert(self@.pins =~= p0.update(
                pin as int,
                PinV { mode: mode, value: value as u16, ..p0[pin as int] },
            ));
        }
        let blen = self.buffer.len();
        proof {
            assert(end < blen);
        }
        self.buffer = vec_skip(&self.buffer, end + 1);
        messages.push(Message::PinStateResponse);
        proof {
            assert(step_sysex(pre, end as int) is Next);
            assert(step_sysex(pre, end as int)->Next_next =~~= self@);
            assert(messages.deep_view() =~= m0 + step_sysex(pre, end as int)->Next_emitted);
        }
        None
    }
}

/// Outcome of one attempt to consume a frame from the front of the buffer.
pub(crate) enum FrameOutcome {
    /// One frame was consumed.
    Consumed,
    /// The buffer holds only part of a frame: wait for more bytes.
    NeedMore,
    /// Decoding failed.
    Failed(Error),
}

impl Board {
    /// Consume one frame from the front of the buffer, as [`step`] says.
    fn consume_frame(&mut self, messages: &mut Vec<Message>) -> (r: FrameOutcome)
        requires
            old(self)@.buffer.len() > 0,
        ensures
            match r {
                FrameOutcome::Consumed => {
                    &&& step(old(self)@) is Next
                    &&& step(old(self)@)->Next_next == final(self)@
                    &&& final(messages).deep_view() == old(messages).deep_view() + step(
                        old(self)@,
                    )->Next_emitted
                },
                FrameOutcome::NeedMore => {
                    &&& step(old(self)@) is Stop
                    &&& final(self)@ == old(self)@
                    &&& *final(messages) == *old(messages)
                },
                FrameOutcome::Failed(e) => {
                    &&& step(old(self)@) is Fail
                    &&& step(old(self)@)->Fail_next == final(self)@
                    &&& e@ == step(old(self)@)->Fail_error
                },
            },
    {
        let ghost pre = self@;
        let ghost m0 = messages.deep_view();
        let b0 = self.buffer[0];
        if b0 == REPORT_VERSION {
            if self.buffer.len() < 3 {
                proof {
                    assert(step(pre) is Stop);
                }
                return FrameOutcome::NeedMore;
            }
            let b1 = self.buffer[1];
            let b2 = self.buffer[2];
            self.protocol_version = Some(version_string(b1, b2));
            self.buffer = vec_skip(&self.buffer, 3);
            messages.push(Message::ProtocolVersion(b1, b2));
            proof {
                assert(step(pre) is Next);
                assert(step(pre)->Next_next =~~= self@);
                assert(messages.deep_view() =~= m0 + step(pre)->Next_emitted);
            }
            return FrameOutcome::Consumed;
        }
        if ANALOG_MESSAGE <= b0 && b0 <= ANALOG_MESSAGE_BOUND {
            if self.buffer.len() < 3 {
                proof {
                    assert(step(pre) is Stop);
                }
                return FrameOutcome::NeedMore;
            }
            let b1 = self.buffer[1];
            let b2 = self.buffer[2];
            proof {
                assert(b0 & 0x0F <= 15) by (bit_vector);
            }
            let pin_index: u8 = (b0 & 0x0F) + 14;
            let value: u16 = (b1 as u16) | ((b2 as u16) << 7);
            if (pin_index as usize) < self.pins.len() {
                let changed = self.pins[pin_index as usize].value != value;
                let ghost p0 = self@.pins;
                self.pins[pin_index as usize].value = value;
                proof {
                    assert(self@.pins =~= p0.update(
                        pin_index as int,
                        PinV { value: value, ..p0[pin_index as int] },
                    ));
                }
                self.buffer = vec_skip(&self.buffer, 3);
                if changed {
                    let mut updates: Vec<(u8, u16)> = Vec::new();
                    updates.push((pin_index, value));
                    proof {
                        assert(updates@ =~= seq![(pin_index, value)]);
                    }
                    messages.push(Message::Analog(updates));
                    proof {
                        assert(step(pre) is Next);
                        assert(step(pre)->Next_next =~~= self@);
                        assert(step(pre)->Next_emitted =~~= seq![
                            MessageV::Analog(seq![(pin_index, value)]),
                        ]);
                        assert(messages.deep_view() =~= m0 + step(pre)->Next_emitted);
                    }
                } else {
                    proof {
                        assert(step(pre) is Next);
                        assert(step(pre)->Next_next =~~= self@);
                        assert(step(pre)->Next_emitted =~~= Seq::<MessageV>::empty());
                        assert(messages.deep_view() =~= m0 + step(pre)->Next_emitted);
                    }
                }
            } else {
                self.buffer = vec_skip(&self.buffer, 3);
                proof {
                    assert(step(pre) is Next);
                    assert(step(pre)->Next_next =~~= self@);
                    assert(step(pre)->Next_emitted =~~= Seq::<MessageV>::empty());
                    assert(messages.deep_view() =~= m0 + step(pre)->Next_emitted);
                }
            }
            return FrameOutcome::Consumed;
        }
        if DIGITAL_MESSAGE <= b0 && b0 <= DIGITAL_MESSAGE_BOUND {
            if self.buffer.len() < 3 {
                proof {
                    assert(step(pre) is Stop);
                }
                return FrameOutcome::NeedMore;
            }
            self.handle_digital(messages);
            return FrameOutcome::Consumed;
        }
        if b0 == START_SYSEX {
            let mut found = false;
            let mut end: usize = 0;
            let mut j: usize = 0;
            while j < self.buffer.len()
                invariant_except_break
                    self@ == pre,
                    j <= pre.buffer.len(),
                    !found,
                    first_terminator(pre.buffer, 0) == first_terminator(pre.buffer, j as int),
                ensures
                    self@ == pre,
                    found ==> first_terminator(pre.buffer, 0) == Some(end as int),
                    !found ==> first_terminator(pre.buffer, 0) is None,
                decreases pre.buffer.len() - j,
            {
                if self.buffer[j] == END_SYSEX {
                    found = true;
                    end = j;
                    proof {
                        assert(first_terminator(pre.buffer, j as int) == Some(j as int));
                    }
                    break;
                }
                proof {
                    assert(first_terminator(pre.buffer, j as int) == first_terminator(
                        pre.buffer,
                        j + 1 as int,
                    ));
                }
                j = j + 1;
            }
            if !found {
                proof {
                    assert(step(pre) is Stop);
                }
                return FrameOutcome::NeedMore;
            }
            proof {
                lemma_first_terminator(pre.buffer, 0);
                assert(pre.buffer[end as int] == END_SYSEX);
                assert(1 <= end < pre.buffer.len());
                assert(step(pre) == step_sysex(pre, end as int));
            }
            let byte_1 = self.buffer[1];
            if byte_1 == END_SYSEX {
                proof {
                    assert(end == 1);
                }
                self.buffer = vec_skip(&self.buffer, end + 1);
                messages.push(Message::EmptyResponse);
                proof {
                    assert(step_sysex(pre, end as int) is Next);
                    assert(step_sysex(pre, end as int)->Next_next =~~= self@);
                    assert(messages.deep_view() =~= m0 + step_sysex(pre, end as int)->Next_emitted);
                }
                return FrameOutcome::Consumed;
            }
            if byte_1 == ANALOG_MAPPING_RESPONSE {
                self.handle_analog_mapping(end, messages);
                return FrameOutcome::Consumed;
            }
            if byte_1 == CAPABILITY_RESPONSE {
                return match self.handle_capability(end, messages) {
                    None => FrameOutcome::Consumed,
                    Some(e) => FrameOutcome::Failed(e),
                };
            }
            if byte_1 == REPORT_FIRMWARE {
                return match self.handle_report_firmware(end, messages) {
                    None => FrameOutcome::Consumed,
                    Some(e) => FrameOutcome::Failed(e),
                };
            }
            if byte_1 == I2C_REPLY {
                return match self.handle_i2c_reply(end, messages) {
                    None => FrameOutcome::Consumed,
                    Some(e) => FrameOutcome::Failed(e),
                };
            }
            if byte_1 == PIN_STATE_RESPONSE {
                return match self.handle_pin_state(end, messages) {
                    None => FrameOutcome::Consumed,
                    Some(e) => FrameOutcome::Failed(e),
                };
            }
            proof {
                assert(step_sysex(pre, end as int) is Fail);
                assert(step_sysex(pre, end as int)->Fail_next == pre);
                assert(step_sysex(pre, end as int)->Fail_error == (ErrorV::UnknownSysEx {
                    code: byte_1,
                }));
            }
            return FrameOutcome::Failed(Error::UnknownSysEx { code: byte_1 });
        }
        self.buffer = vec_skip(&self.buffer, 1);
        proof {
            assert(step(pre) is Fail);
            assert(step(pre)->Fail_next =~~= self@);
            assert(step(pre)->Fail_error == ErrorV::BadByte(pre.buffer[0]));
        }
        FrameOutcome::Failed(Error::BadByte(b0))
    }

    /// Append the newly received bytes and decode every complete frame in
    /// the buffer, updating the pin table, firmware metadata, and I2C log,
    /// and returning the decoded messages. Unconsumed partial bytes stay
    /// buffered for the next call. On the first call where both firmware
    /// name and version are known, the initial negotiation commands are
    /// dispatched once.
    pub fn poll(&mut self, new_bytes: &[u8]) -> (r: Result<Vec<Message>, Error>)
        ensures
            ({
                let s0 = old(self)@;
                if !s0.connected {
                    &&& final(self)@ == latched(s0)
                    &&& (r matches Err(e) && e@ == ErrorV::Disconnected)
                } else {
                    let d = drain(poll_start(s0, new_bytes@));
                    &&& final(self)@ == d.state
                    &&& (match d.error {
                        None => r matches Ok(msgs) && msgs.deep_view() == d.messages,
                        Some(err) => r matches Err(e) && e@ == err,
                    })
                }
            }),
    {
        let ghost s0 = self@;
        if self.firmware_name.is_some() && self.firmware_version.is_some()
            && !self.initial_messages_sent {
            self.initial_messages_sent = true;
            proof {
                assert(latch_fires(s0));
                assert(self@ =~= latched(s0));
            }
            match self.query_capabilities() {
                Ok(_) => {},
                Err(e) => {
                    return Err(e);
                },
            }
            match self.query_analog_mapping() {
                Ok(_) => {},
                Err(e) => {
                    return Err(e);
                },
            }
            match self.send(&[REPORT_DIGITAL, 1]) {
                Ok(_) => {},
                Err(e) => {
                    return Err(e);
                },
            }
            proof {
                assert(self@ =~= (BoardV {
                    outbound: latched(s0).outbound + initial_commands(),
                    ..latched(s0)
                }));
            }
        }
        if !self.connected {
            proof {
                assert(self@ =~= latched(s0));
            }
            return Err(Error::Disconnected);
        }
        vec_extend(&mut self.buffer, new_bytes);
        let ghost se = poll_start(s0, new_bytes@);
        proof {
            assert(self@ =~= se);
        }
        let mut messages: Vec<Message> = Vec::new();
        proof {
            assert(messages.deep_view() =~= Seq::<MessageV>::empty());
            assert(drain(se).messages =~= messages.deep_view() + drain(self@).messages);
        }
        loop
            invariant
                old(self)@.connected,
                se == poll_start(old(self)@, new_bytes@),
                drain(se).messages == messages.deep_view() + drain(self@).messages,
                drain(se).state == drain(self@).state,
                drain(se).error == drain(self@).error,
            ensures
                self@ == drain(se).state,
                drain(se).error is None,
                drain(se).messages == messages.deep_view(),
            decreases self@.buffer.len(),
        {
            if self.buffer.is_empty() {
                proof {
                    lemma_drain_stop(self@);
                    assert(drain(se).messages =~= messages.deep_view());
                }
                break;
            }
            let ghost pre = self@;
            let ghost m0 = messages.deep_view();
            match self.consume_frame(&mut messages) {
                FrameOutcome::Consumed => {
                    proof {
                        lemma_step_progress(pre);
                        lemma_drain_invariant_step(se, pre, self@, m0, messages.deep_view());
                    }
                },
                FrameOutcome::NeedMore => {
                    proof {
                        lemma_drain_stop(self@);
                        assert(drain(se).messages =~= messages.deep_view());
                    }
                    break;
                },
                FrameOutcome::Failed(e) => {
                    proof {
                        lemma_drain_fail(pre);
                    }
                    return Err(e);
                },
            }
        }
        Ok(messages)
    }
}

} // verus!
