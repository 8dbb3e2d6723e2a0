//! Mathematical model of the board and of the streaming protocol decoder.
//!
//! The decoder consumes frames from the front of the byte buffer, one at a
//! time. [`step`] says what a single frame does to the board state and which
//! messages it emits; [`drain`] iterates [`step`] until the buffer is empty,
//! a partial frame asks for more bytes, or a frame fails to decode.

use vstd::prelude::*;
use vstd::utf8::decode_utf8;
use vstd::utf8::valid_utf8;

use crate::constants::ANALOG_MAPPING_QUERY;
use crate::constants::ANALOG_MAPPING_RESPONSE;
use crate::constants::ANALOG_MESSAGE;
use crate::constants::ANALOG_MESSAGE_BOUND;
use crate::constants::CAPABILITY_QUERY;
use crate::constants::CAPABILITY_RESPONSE;
use crate::constants::DIGITAL_MESSAGE;
use crate::constants::DIGITAL_MESSAGE_BOUND;
use crate::constants::END_SYSEX;
use crate::constants::I2C_REPLY;
use crate::constants::PIN_MODE_IGNORE;
use crate::constants::PIN_MODE_INPUT;
use crate::constants::PIN_MODE_PULLUP;
use crate::constants::PIN_STATE_RESPONSE;
use crate::constants::REPORT_DIGITAL;
use crate::constants::REPORT_FIRMWARE;
use crate::constants::REPORT_VERSION;
use crate::constants::START_SYSEX;
use crate::error::ErrorV;
use crate::i2c_reply::I2CReplyV;
use crate::message::MessageV;
use crate::pin::default_reserved_pin;
use crate::pin::PinV;
use crate::text::version_text;

verus! {

/// Mathematical model of a `Board`.
#[verifier::ext_equal]
pub ghost struct BoardV {
    /// False once `disconnect` has been issued.
    pub connected: bool,
    /// One-shot latch for the initial negotiation commands.
    pub initial_messages_sent: bool,
    pub firmware_name: Option<Seq<char>>,
    pub firmware_version: Option<Seq<char>>,
    pub protocol_version: Option<Seq<char>>,
    pub pins: Seq<PinV>,
    pub i2c_data: Seq<I2CReplyV>,
    /// Unparsed bytes kept across `poll` calls.
    pub buffer: Seq<u8>,
    /// Bytes submitted for the transport, in submission order.
    pub outbound: Seq<u8>,
}

impl BoardV {
    /// A fresh board: connected, nothing negotiated yet, everything empty.
    pub open spec fn init() -> BoardV {
        BoardV {
            connected: true,
            initial_messages_sent: false,
            firmware_name: None,
            firmware_version: None,
            protocol_version: None,
            pins: Seq::empty(),
            i2c_data: Seq::empty(),
            buffer: Seq::empty(),
            outbound: Seq::empty(),
        }
    }
}

/// Outcome of consuming one frame from the front of the buffer.
#[verifier::ext_equal]
pub ghost enum StepV {
    /// The buffer holds only part of a frame: wait for more bytes.
    Stop,
    /// One frame was consumed and `emitted` messages were produced.
    Next { next: BoardV, emitted: Seq<MessageV> },
    /// Decoding failed; `next` holds the state the failure leaves behind.
    Fail { next: BoardV, error: ErrorV },
}

/// Outcome of repeatedly consuming frames until no complete frame is left.
#[verifier::ext_equal]
pub ghost struct DrainV {
    pub messages: Seq<MessageV>,
    pub state: BoardV,
    pub error: Option<ErrorV>,
}

/// Two 7-bit wire bytes reassembled into the full value: the low byte
/// gives bits 0 to 6 and the high byte bits 7 and up, so an analog
/// magnitude of up to 14 bits comes through whole.
pub open spec fn combine14(lsb: u8, msb: u8) -> u16 {
    (lsb as u16) | ((msb as u16) << 7)
}

/// Two 7-bit wire bytes reassembled into a single byte, as the I2C reply
/// payload uses them: the high byte's low bit lands on bit 7.
pub open spec fn combine7(lsb: u8, msb: u8) -> u8 {
    lsb | (msb << 7)
}

/// Index of the first sysex terminator at or after `i`, if any.
pub open spec fn first_terminator(buffer: Seq<u8>, i: int) -> Option<int>
    decreases buffer.len() - i,
{
    if i < 0 || i >= buffer.len() {
        None
    } else if buffer[i] == END_SYSEX {
        Some(i)
    } else {
        first_terminator(buffer, i + 1)
    }
}

/// Digital message scan: walk the 8 pins of `port`, update every pin in
/// INPUT or PULLUP mode with its bit of `value`, and record the pins whose
/// value changed.
pub open spec fn digital_scan(
    pins: Seq<PinV>,
    port: u8,
    value: u16,
    i: int,
    acc: Seq<(u8, bool)>,
) -> (Seq<PinV>, Seq<(u8, bool)>)
    decreases 8 - i,
{
    if i < 0 || i >= 8 {
        (pins, acc)
    } else {
        let pi = 8 * (port as int) + i;
        if pi < pins.len() && (pins[pi].mode == PIN_MODE_INPUT || pins[pi].mode == PIN_MODE_PULLUP) {
            let new_value = (value >> ((i as u16) & 0x07)) & 0x01;
            let acc2 = if new_value != pins[pi].value {
                acc.push((pi as u8, new_value != 0))
            } else {
                acc
            };
            digital_scan(pins.update(pi, PinV { value: new_value, ..pins[pi] }), port, value, i + 1, acc2)
        } else {
            digital_scan(pins, port, value, i + 1, acc)
        }
    }
}

/// Analog mapping scan: every payload byte other than the ignore marker
/// marks pin `index - 2` as analog-capable.
pub open spec fn analog_mark(pins: Seq<PinV>, sysex: Seq<u8>, i: int) -> Seq<PinV>
    decreases sysex.len() - i,
{
    if i < 2 || i >= sysex.len() {
        pins
    } else if sysex[i] == PIN_MODE_IGNORE {
        analog_mark(pins, sysex, i + 1)
    } else if sysex[i] == END_SYSEX {
        pins
    } else if i - 2 < pins.len() {
        analog_mark(pins.update(i - 2, PinV { analog: true, ..pins[i - 2] }), sysex, i + 1)
    } else {
        analog_mark(pins, sysex, i + 1)
    }
}

/// Capability response scan: mode/resolution byte pairs accumulate one pin's
/// descriptor; a `0x7F` byte completes the pin. `None` reports a descriptor
/// that declared no mode at all.
pub open spec fn capability_scan(
    sysex: Seq<u8>,
    i: int,
    end: int,
    modes: Seq<u8>,
    resolution: Option<u8>,
    acc: Seq<PinV>,
) -> Option<Seq<PinV>>
    decreases end + 2 - i,
{
    if i < 0 || i >= end {
        Some(acc)
    } else if sysex[i] == 127 {
        if modes.len() == 0 {
            None
        } else {
            capability_scan(
                sysex,
                i + 1,
                end,
                Seq::empty(),
                None,
                acc.push(
                    PinV {
                        analog: false,
                        mode: modes[0],
                        modes,
                        report_analog_active: false,
                        report_digital_active: false,
                        resolution: resolution->0,
                        value: 0,
                    },
                ),
            )
        }
    } else {
        capability_scan(
            sysex,
            i + 2,
            end,
            modes.push(sysex[i]),
            if resolution is None {
                Some(sysex[i + 1])
            } else {
                resolution
            },
            acc,
        )
    }
}

/// I2C reply data scan: reassemble the remaining payload bytes pairwise.
pub open spec fn i2c_pairs(sysex: Seq<u8>, i: int, end: int, acc: Seq<u8>) -> Seq<u8>
    decreases end + 2 - i,
{
    if i < 0 || i >= end - 1 {
        acc
    } else {
        i2c_pairs(sysex, i + 2, end, acc.push(combine7(sysex[i], sysex[i + 1])))
    }
}

/// One sysex frame, `buffer[0] == START_SYSEX` with the terminator at `end`.
pub open spec fn step_sysex(s: BoardV, end: int) -> StepV
    recommends
        1 <= end < s.buffer.len(),
        s.buffer[end] == END_SYSEX,
{
    let b = s.buffer;
    let n = end + 1;
    let sub = b[1];
    if sub == END_SYSEX {
        StepV::Next {
            next: BoardV { buffer: b.skip(n), ..s },
            emitted: seq![MessageV::EmptyResponse],
        }
    } else if sub == ANALOG_MAPPING_RESPONSE {
        StepV::Next {
            next: BoardV { pins: analog_mark(s.pins, b.take(n), 2), buffer: b.skip(n), ..s },
            emitted: seq![MessageV::AnalogMappingResponse],
        }
    } else if sub == CAPABILITY_RESPONSE {
        match capability_scan(b.take(n), 4, end, Seq::empty(), None, Seq::empty()) {
            Some(scanned) => StepV::Next {
                next: BoardV {
                    pins: seq![default_reserved_pin(), default_reserved_pin()] + scanned,
                    buffer: b.skip(n),
                    ..s
                },
                emitted: seq![MessageV::CapabilityResponse],
            },
            None => StepV::Fail { next: s, error: ErrorV::MessageTooShort },
        }
    } else if sub == REPORT_FIRMWARE {
        if end < 4 {
            StepV::Fail { next: s, error: ErrorV::MessageTooShort }
        } else {
            let vtext = version_text(b[2], b[3]);
            if end > 4 {
                let name_bytes = b.subrange(4, end);
                if valid_utf8(name_bytes) {
                    let name = decode_utf8(name_bytes);
                    StepV::Next {
                        next: BoardV {
                            firmware_version: Some(vtext),
                            firmware_name: Some(name),
                            buffer: b.skip(n),
                            ..s
                        },
                        emitted: seq![
                            MessageV::ReportFirmwareVersion(vtext),
                            MessageV::ReportFirmwareName(name),
                        ],
                    }
                } else {
                    StepV::Fail {
                        next: BoardV { firmware_version: Some(vtext), ..s },
                        error: ErrorV::Utf8,
                    }
                }
            } else {
                StepV::Next {
                    next: BoardV { firmware_version: Some(vtext), buffer: b.skip(n), ..s },
                    emitted: seq![MessageV::ReportFirmwareVersion(vtext)],
                }
            }
        }
    } else if sub == I2C_REPLY {
        if end < 8 {
            StepV::Fail { next: s, error: ErrorV::MessageTooShort }
        } else {
            let reply = I2CReplyV {
                address: combine7(b[2], b[3]),
                register: combine7(b[4], b[5]),
                data: i2c_pairs(b.take(n), 8, end, seq![combine7(b[6], b[7])]),
            };
            StepV::Next {
                next: BoardV { i2c_data: s.i2c_data.push(reply), buffer: b.skip(n), ..s },
                emitted: seq![MessageV::I2CReply],
            }
        }
    } else if sub == PIN_STATE_RESPONSE {
        if end == 3 {
            StepV::Next {
                next: BoardV { buffer: b.skip(n), ..s },
                emitted: seq![MessageV::PinStateResponse],
            }
        } else if end < 5 {
            StepV::Fail { next: s, error: ErrorV::MessageTooShort }
        } else {
            let pin = b[2];
            if pin as int >= s.pins.len() {
                StepV::Fail {
                    next: s,
                    error: ErrorV::PinOutOfBounds {
                        pin,
                        len: s.pins.len() as nat,
                        source: "poll : PIN_STATE_RESPONSE"@,
                    },
                }
            } else {
                StepV::Next {
                    next: BoardV {
                        pins: s.pins.update(
                            pin as int,
                            PinV { mode: b[3], value: b[4] as u16, ..s.pins[pin as int] },
                        ),
                        buffer: b.skip(n),
                        ..s
                    },
                    emitted: seq![MessageV::PinStateResponse],
                }
            }
        }
    } else {
        StepV::Fail { next: s, error: ErrorV::UnknownSysEx { code: sub } }
    }
}

/// Consume one frame from the front of the buffer.
pub open spec fn step(s: BoardV) -> StepV
    recommends
        s.buffer.len() > 0,
{
    let b = s.buffer;
    let b0 = b[0];
    if b0 == REPORT_VERSION {
        if b.len() < 3 {
            StepV::Stop
        } else {
            StepV::Next {
                next: BoardV {
                    protocol_version: Some(version_text(b[1], b[2])),
                    buffer: b.skip(3),
                    ..s
                },
                emitted: seq![MessageV::ProtocolVersion(b[1], b[2])],
            }
        }
    } else if ANALOG_MESSAGE <= b0 <= ANALOG_MESSAGE_BOUND {
        if b.len() < 3 {
            StepV::Stop
        } else {
            let pi = ((b0 & 0x0F) + 14) as int;
            let value = combine14(b[1], b[2]);
            if pi < s.pins.len() {
                let emitted = if s.pins[pi].value != value {
                    seq![MessageV::Analog(seq![(pi as u8, value)])]
                } else {
                    Seq::empty()
                };
                StepV::Next {
                    next: BoardV {
                        pins: s.pins.update(pi, PinV { value: value, ..s.pins[pi] }),
                        buffer: b.skip(3),
                        ..s
                    },
                    emitted,
                }
            } else {
                StepV::Next { next: BoardV { buffer: b.skip(3), ..s }, emitted: Seq::empty() }
            }
        }
    } else if DIGITAL_MESSAGE <= b0 <= DIGITAL_MESSAGE_BOUND {
        if b.len() < 3 {
            StepV::Stop
        } else {
            let port = b0 & 0x0F;
            let value = combine14(b[1], b[2]);
            let (pins2, updates) = digital_scan(s.pins, port, value, 0, Seq::empty());
            let emitted = if updates.len() > 0 {
                seq![MessageV::Digital(updates)]
            } else {
                Seq::empty()
            };
            StepV::Next { next: BoardV { pins: pins2, buffer: b.skip(3), ..s }, emitted }
        }
    } else if b0 == START_SYSEX {
        match first_terminator(b, 0) {
            None => StepV::Stop,
            Some(end) => step_sysex(s, end),
        }
    } else {
        StepV::Fail { next: BoardV { buffer: b.skip(1), ..s }, error: ErrorV::BadByte(b0) }
    }
}

/// Repeatedly consume frames until the buffer is empty, a partial frame
/// remains, or a frame fails to decode. On failure the messages already
/// decoded in the same pass are discarded, as the caller's result is the
/// error alone.
pub open spec fn drain(s: BoardV) -> DrainV
    decreases s.buffer.len(),
{
    if s.buffer.len() == 0 {
        DrainV { messages: Seq::empty(), state: s, error: None }
    } else {
        match step(s) {
            StepV::Stop => DrainV { messages: Seq::empty(), state: s, error: None },
            StepV::Fail { next, error } => DrainV {
                messages: Seq::empty(),
                state: next,
                error: Some(error),
            },
            StepV::Next { next, emitted } => {
                if next.buffer.len() < s.buffer.len() {
                    let rest = drain(next);
                    DrainV { messages: emitted + rest.messages, state: rest.state, error: rest.error }
                } else {
                    DrainV { messages: emitted, state: next, error: None }
                }
            },
        }
    }
}

/// Whether this `poll` call dispatches the one-shot initial negotiation.
pub open spec fn latch_fires(s: BoardV) -> bool {
    s.firmware_name is Some && s.firmware_version is Some && !s.initial_messages_sent
}

/// The state with the one-shot latch set if this call fires it.
pub open spec fn latched(s: BoardV) -> BoardV {
    if latch_fires(s) {
        BoardV { initial_messages_sent: true, ..s }
    } else {
        s
    }
}

/// The initial negotiation commands: capability query, analog mapping query,
/// and digital reporting enabled for port 0.
pub open spec fn initial_commands() -> Seq<u8> {
    seq![
        START_SYSEX,
        CAPABILITY_QUERY,
        END_SYSEX,
        START_SYSEX,
        ANALOG_MAPPING_QUERY,
        END_SYSEX,
        REPORT_DIGITAL,
        1u8,
    ]
}

/// The state a connected `poll` call decodes from: latch fired if due,
/// initial commands queued, and the new bytes appended to the buffer.
pub open spec fn poll_start(s: BoardV, new_bytes: Seq<u8>) -> BoardV {
    let s1 = latched(s);
    let s2 = if latch_fires(s) {
        BoardV { outbound: s1.outbound + initial_commands(), ..s1 }
    } else {
        s1
    };
    BoardV { buffer: s2.buffer + new_bytes, ..s2 }
}

/// What `first_terminator` finds is the first terminator.
pub proof fn lemma_first_terminator(buffer: Seq<u8>, i: int)
    requires
        0 <= i,
    ensures
        match first_terminator(buffer, i) {
            Some(e) => i <= e < buffer.len() && buffer[e] == END_SYSEX && (forall|k: int|
                i <= k < e ==> buffer[k] != END_SYSEX),
            None => forall|k: int| i <= k < buffer.len() ==> buffer[k] != END_SYSEX,
        },
    decreases buffer.len() - i,
{
    if i < buffer.len() && buffer[i] != END_SYSEX {
        lemma_first_terminator(buffer, i + 1);
    }
}

/// A consumed frame always shortens the buffer.
pub proof fn lemma_step_progress(s: BoardV)
    requires
        s.buffer.len() > 0,
        step(s) is Next,
    ensures
        (step(s)->Next_next).buffer.len() < s.buffer.len(),
{
    let b = s.buffer;
    if b[0] == START_SYSEX {
        lemma_first_terminator(b, 0);
    }
}

/// Unfolding of [`drain`] across one consumed frame.
pub proof fn lemma_drain_next(s: BoardV)
    requires
        s.buffer.len() > 0,
        step(s) is Next,
    ensures
        drain(s).messages == step(s)->Next_emitted + drain(step(s)->Next_next).messages,
        drain(s).state == drain(step(s)->Next_next).state,
        drain(s).error == drain(step(s)->Next_next).error,
{
    lemma_step_progress(s);
}

/// One consumed frame carries the drain bookkeeping from `pre` to `post`.
pub proof fn lemma_drain_invariant_step(
    entry: BoardV,
    pre: BoardV,
    post: BoardV,
    sofar: Seq<MessageV>,
    now: Seq<MessageV>,
)
    requires
        pre.buffer.len() > 0,
        step(pre) is Next,
        step(pre)->Next_next == post,
        now == sofar + step(pre)->Next_emitted,
        drain(entry).messages == sofar + drain(pre).messages,
        drain(entry).state == drain(pre).state,
        drain(entry).error == drain(pre).error,
    ensures
        drain(entry).messages == now + drain(post).messages,
        drain(entry).state == drain(post).state,
        drain(entry).error == drain(post).error,
{
    lemma_drain_next(pre);
    assert(drain(entry).messages =~= now + drain(post).messages);
}

/// Unfolding of [`drain`] when the head frame is incomplete.
pub proof fn lemma_drain_stop(s: BoardV)
    requires
        s.buffer.len() == 0 || step(s) is Stop,
    ensures
        drain(s) == (DrainV { messages: Seq::<MessageV>::empty(), state: s, error: None::<ErrorV> }),
{
}

/// Unfolding of [`drain`] when the head frame fails to decode.
pub proof fn lemma_drain_fail(s: BoardV)
    requires
        s.buffer.len() > 0,
        step(s) is Fail,
    ensures
        drain(s) == (DrainV {
            messages: Seq::<MessageV>::empty(),
            state: step(s)->Fail_next,
            error: Some(step(s)->Fail_error),
        }),
{
}

} // verus!
