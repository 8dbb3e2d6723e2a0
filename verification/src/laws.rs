//! Laws of the decoder, proved over the model in [`crate::decode`].

use vstd::prelude::*;

use crate::constants::ANALOG_MESSAGE;
use crate::constants::ANALOG_MESSAGE_BOUND;
use crate::constants::CAPABILITY_RESPONSE;
use crate::constants::END_SYSEX;
use crate::constants::START_SYSEX;
use crate::decode::capability_scan;
use crate::decode::combine14;
use crate::decode::drain;
use crate::decode::first_terminator;
use crate::decode::latched;
use crate::decode::lemma_drain_next;
use crate::decode::lemma_drain_stop;
use crate::decode::lemma_first_terminator;
use crate::decode::lemma_step_progress;
use crate::decode::poll_start;
use crate::decode::step;
use crate::decode::step_sysex;
use crate::decode::BoardV;
use crate::decode::DrainV;
use crate::decode::StepV;
use crate::message::MessageV;
use crate::pin::default_reserved_pin;
use crate::pin::PinV;

verus! {

/// The decoder never reads the connection flag, the one-shot latch, or the
/// outbound queue: changing them changes nothing of what one step decodes.
pub proof fn lemma_step_frame(s: BoardV, o: Seq<u8>, im: bool, c: bool)
    requires
        s.buffer.len() > 0,
    ensures
        ({
            let t = BoardV { outbound: o, initial_messages_sent: im, connected: c, ..s };
            match step(s) {
                StepV::Stop => step(t) is Stop,
                StepV::Next { next, emitted } => step(t) == (StepV::Next {
                    next: BoardV { outbound: o, initial_messages_sent: im, connected: c, ..next },
                    emitted,
                }),
                StepV::Fail { next, error } => step(t) == (StepV::Fail {
                    next: BoardV { outbound: o, initial_messages_sent: im, connected: c, ..next },
                    error,
                }),
            }
        }),
{
    let t = BoardV { outbound: o, initial_messages_sent: im, connected: c, ..s };
    assert(t.buffer == s.buffer);
    assert(t.pins == s.pins);
    match step(s) {
        StepV::Stop => {},
        StepV::Next { next, emitted } => {
            assert(step(t) =~~= (StepV::Next {
                next: BoardV { outbound: o, initial_messages_sent: im, connected: c, ..next },
                emitted,
            }));
        },
        StepV::Fail { next, error } => {
            assert(step(t) =~~= (StepV::Fail {
                next: BoardV { outbound: o, initial_messages_sent: im, connected: c, ..next },
                error,
            }));
        },
    }
}

/// [`lemma_step_frame`], iterated over a whole drain.
pub proof fn lemma_drain_frame(s: BoardV, o: Seq<u8>, im: bool, c: bool)
    ensures
        ({
            let t = BoardV { outbound: o, initial_messages_sent: im, connected: c, ..s };
            let ds = drain(s);
            let dt = drain(t);
            &&& dt.messages == ds.messages
            &&& dt.error == ds.error
            &&& dt.state == (BoardV {
                outbound: o,
                initial_messages_sent: im,
                connected: c,
                ..ds.state
            })
        }),
    decreases s.buffer.len(),
{
    let t = BoardV { outbound: o, initial_messages_sent: im, connected: c, ..s };
    if s.buffer.len() == 0 {
        assert(drain(t).state =~~= (BoardV {
            outbound: o,
            initial_messages_sent: im,
            connected: c,
            ..drain(s).state
        }));
    } else {
        lemma_step_frame(s, o, im, c);
        match step(s) {
            StepV::Stop => {},
            StepV::Fail { next, error } => {},
            StepV::Next { next, emitted } => {
                lemma_step_progress(s);
                lemma_drain_next(s);
                let tnext = BoardV {
                    outbound: o,
                    initial_messages_sent: im,
                    connected: c,
                    ..next
                };
                lemma_step_progress(t);
                lemma_drain_next(t);
                lemma_drain_frame(next, o, im, c);
            },
        }
    }
}

/// What a successful drain leaves behind decodes to nothing: every complete
/// frame was consumed, only a partial frame (or nothing) remains.
pub proof fn lemma_drain_leftover_silent(s: BoardV)
    requires
        drain(s).error is None,
    ensures
        drain(drain(s).state) == (DrainV {
            messages: Seq::<MessageV>::empty(),
            state: drain(s).state,
            error: None::<crate::error::ErrorV>,
        }),
    decreases s.buffer.len(),
{
    if s.buffer.len() == 0 {
    } else {
        match step(s) {
            StepV::Stop => {},
            StepV::Fail { next, error } => {},
            StepV::Next { next, emitted } => {
                lemma_step_progress(s);
                lemma_drain_next(s);
                lemma_drain_leftover_silent(next);
            },
        }
    }
}

/// Idempotent re-poll on empty input: after a `poll` that returned `Ok`,
/// an immediate `poll` with no new bytes decodes no further messages and
/// reports no error (no double emission).
pub proof fn lemma_repoll_empty_input_silent(s0: BoardV, new_bytes: Seq<u8>)
    requires
        s0.connected,
        drain(poll_start(s0, new_bytes)).error is None,
    ensures
        ({
            let s1 = drain(poll_start(s0, new_bytes)).state;
            let d2 = drain(poll_start(s1, Seq::<u8>::empty()));
            d2.messages == Seq::<MessageV>::empty() && d2.error is None
        }),
{
    let s1 = drain(poll_start(s0, new_bytes)).state;
    let t = poll_start(s1, Seq::<u8>::empty());
    lemma_drain_leftover_silent(poll_start(s0, new_bytes));
    assert(t.buffer =~= s1.buffer);
    assert(t =~~= (BoardV {
        outbound: t.outbound,
        initial_messages_sent: t.initial_messages_sent,
        connected: t.connected,
        ..s1
    }));
    lemma_drain_frame(s1, t.outbound, t.initial_messages_sent, t.connected);
}

/// Partial-frame stability: a buffer that starts a sysex frame whose
/// terminator has not arrived yet decodes to nothing and stays unchanged,
/// whatever bytes it holds so far.
pub proof fn lemma_partial_sysex_waits(s: BoardV)
    requires
        s.buffer.len() > 0,
        s.buffer[0] == START_SYSEX,
        forall|k: int| 0 <= k < s.buffer.len() ==> s.buffer[k] != END_SYSEX,
    ensures
        drain(s) == (DrainV {
            messages: Seq::<MessageV>::empty(),
            state: s,
            error: None::<crate::error::ErrorV>,
        }),
{
    lemma_first_terminator(s.buffer, 0);
    if first_terminator(s.buffer, 0) is Some {
        let e = first_terminator(s.buffer, 0)->0;
        assert(s.buffer[e] == END_SYSEX);
        assert(false);
    }
    assert(step(s) is Stop);
    lemma_drain_stop(s);
}

/// A terminator already in the buffer is still the first one after more
/// bytes arrive.
proof fn lemma_first_terminator_extend(b: Seq<u8>, e: Seq<u8>, i: int)
    requires
        0 <= i,
        first_terminator(b, i) is Some,
    ensures
        first_terminator(b + e, i) == first_terminator(b, i),
    decreases b.len() - i,
{
    assert((b + e)[i] == b[i]);
    if i < b.len() && b[i] != END_SYSEX {
        lemma_first_terminator_extend(b, e, i + 1);
    }
}

/// One decoding step reads only the frame at the front of the buffer:
/// bytes arriving behind a complete frame change nothing of how it decodes.
pub proof fn lemma_step_extend(s: BoardV, e: Seq<u8>)
    requires
        s.buffer.len() > 0,
    ensures
        ({
            let t = BoardV { buffer: s.buffer + e, ..s };
            match step(s) {
                StepV::Stop => true,
                StepV::Next { next, emitted } => step(t) == (StepV::Next {
                    next: BoardV { buffer: next.buffer + e, ..next },
                    emitted,
                }),
                StepV::Fail { next, error } => step(t) == (StepV::Fail {
                    next: BoardV { buffer: next.buffer + e, ..next },
                    error,
                }),
            }
        }),
{
    let b = s.buffer;
    let t = BoardV { buffer: b + e, ..s };
    assert((b + e)[0] == b[0]);
    assert(b.len() >= 1 ==> (b + e).len() >= 1);
    if b.len() >= 2 {
        assert((b + e)[1] == b[1]);
    }
    if b.len() >= 3 {
        assert((b + e)[2] == b[2]);
        assert((b + e).skip(3) =~= b.skip(3) + e);
    }
    assert((b + e).skip(1) =~= b.skip(1) + e);
    if b[0] == START_SYSEX {
        match first_terminator(b, 0) {
            None => {
                assert(step(s) is Stop);
            },
            Some(end) => {
                lemma_first_terminator(b, 0);
                lemma_first_terminator_extend(b, e, 0);
                assert((b + e).take(end + 1) =~= b.take(end + 1));
                assert((b + e).skip(end + 1) =~= b.skip(end + 1) + e);
                if end >= 4 {
                    assert((b + e).subrange(4, end) =~= b.subrange(4, end));
                }
                match step(s) {
                    StepV::Stop => {},
                    StepV::Next { next, emitted } => {
                        assert(step(t) =~~= (StepV::Next {
                            next: BoardV { buffer: next.buffer + e, ..next },
                            emitted,
                        }));
                    },
                    StepV::Fail { next, error } => {
                        assert(step(t) =~~= (StepV::Fail {
                            next: BoardV { buffer: next.buffer + e, ..next },
                            error,
                        }));
                    },
                }
            },
        }
    } else {
        match step(s) {
            StepV::Stop => {},
            StepV::Next { next, emitted } => {
                assert(step(t) =~~= (StepV::Next {
                    next: BoardV { buffer: next.buffer + e, ..next },
                    emitted,
                }));
            },
            StepV::Fail { next, error } => {
                assert(step(t) =~~= (StepV::Fail {
                    next: BoardV { buffer: next.buffer + e, ..next },
                    error,
                }));
            },
        }
    }
}

/// A successful drain followed by more bytes decodes exactly as if the
/// bytes had all been there from the start: the decoder is insensitive to
/// how the input is chunked.
pub proof fn lemma_drain_extend(s: BoardV, e: Seq<u8>)
    requires
        drain(s).error is None,
    ensures
        ({
            let d1 = drain(s);
            let d2 = drain(BoardV { buffer: d1.state.buffer + e, ..d1.state });
            let d = drain(BoardV { buffer: s.buffer + e, ..s });
            &&& d.messages == d1.messages + d2.messages
            &&& d.error == d2.error
            &&& d.state == d2.state
        }),
    decreases s.buffer.len(),
{
    let d1 = drain(s);
    let t = BoardV { buffer: s.buffer + e, ..s };
    if s.buffer.len() == 0 {
        assert(s.buffer + e =~= d1.state.buffer + e);
        assert(drain(t).messages =~= d1.messages + drain(t).messages);
    } else {
        match step(s) {
            StepV::Stop => {
                assert(d1.state == s);
                assert(drain(t).messages =~= d1.messages + drain(t).messages);
            },
            StepV::Fail { next, error } => {},
            StepV::Next { next, emitted } => {
                lemma_step_progress(s);
                lemma_drain_next(s);
                lemma_step_extend(s, e);
                let tnext = BoardV { buffer: next.buffer + e, ..next };
                lemma_step_progress(t);
                lemma_drain_next(t);
                lemma_drain_extend(next, e);
                assert(drain(t).messages =~= drain(s).messages + drain(
                    BoardV { buffer: d1.state.buffer + e, ..d1.state },
                ).messages);
            },
        }
    }
}

/// Parse-trace determinism under chunking: polling bytes in two chunks
/// decodes the same messages, in order, as polling them at once, with the
/// same decoder state after; only the one-shot latch and the outbound queue
/// may differ, as the split run may dispatch the initial negotiation a call
/// earlier.
pub proof fn lemma_chunked_polls_same_trace(s0: BoardV, b1: Seq<u8>, b2: Seq<u8>)
    requires
        s0.connected,
        drain(poll_start(s0, b1)).error is None,
    ensures
        ({
            let d1 = drain(poll_start(s0, b1));
            let d2 = drain(poll_start(d1.state, b2));
            let d = drain(poll_start(s0, b1 + b2));
            &&& d.messages == d1.messages + d2.messages
            &&& d.error == d2.error
            &&& d.state.pins == d2.state.pins
            &&& d.state.buffer == d2.state.buffer
            &&& d.state.i2c_data == d2.state.i2c_data
            &&& d.state.firmware_name == d2.state.firmware_name
            &&& d.state.firmware_version == d2.state.firmware_version
            &&& d.state.protocol_version == d2.state.protocol_version
        }),
{
    let p1 = poll_start(s0, b1);
    let d1 = drain(p1);
    let s1 = d1.state;
    let p12 = poll_start(s0, b1 + b2);
    assert(p12 =~~= (BoardV { buffer: p1.buffer + b2, ..p1 }));
    lemma_drain_extend(p1, b2);
    let q = BoardV { buffer: s1.buffer + b2, ..s1 };
    let p2 = poll_start(s1, b2);
    assert(p2 =~~= (BoardV {
        outbound: p2.outbound,
        initial_messages_sent: p2.initial_messages_sent,
        connected: p2.connected,
        ..q
    }));
    lemma_drain_frame(q, p2.outbound, p2.initial_messages_sent, p2.connected);
}

/// Change-detection: the same analog message received twice in a row emits
/// at most one `Analog` update, on the first frame and only when the value
/// actually changed; the repeated frame emits nothing.
pub proof fn lemma_analog_same_frame_twice(s: BoardV, b0: u8, lsb: u8, msb: u8)
    requires
        ANALOG_MESSAGE <= b0 <= ANALOG_MESSAGE_BOUND,
        s.buffer == seq![b0, lsb, msb, b0, lsb, msb],
        ((b0 & 0x0F) + 14) < s.pins.len(),
    ensures
        ({
            let pi = ((b0 & 0x0F) + 14) as int;
            let value = combine14(lsb, msb);
            let d = drain(s);
            &&& d.error is None
            &&& d.messages == (if s.pins[pi].value != value {
                seq![MessageV::Analog(seq![((pi as u8), value)])]
            } else {
                Seq::<MessageV>::empty()
            })
            &&& d.state.pins == s.pins.update(pi, PinV { value, ..s.pins[pi] })
            &&& d.state.buffer == Seq::<u8>::empty()
        }),
{
    let pi = ((b0 & 0x0F) + 14) as int;
    let value = combine14(lsb, msb);
    assert(b0 != START_SYSEX && b0 != 0xF9) by (bit_vector)
        requires
            0xE0 <= b0 <= 0xEF,
    ;
    assert(step(s) is Next);
    lemma_step_progress(s);
    lemma_drain_next(s);
    let s1 = step(s)->Next_next;
    assert(s1.buffer =~= seq![b0, lsb, msb]);
    assert(s1.pins[pi].value == value);
    assert(step(s1) is Next);
    lemma_step_progress(s1);
    lemma_drain_next(s1);
    let s2 = step(s1)->Next_next;
    assert(s2.buffer =~= Seq::<u8>::empty());
    assert(step(s1)->Next_emitted =~= Seq::<MessageV>::empty());
    assert(s2.pins =~= s.pins.update(pi, PinV { value, ..s.pins[pi] }));
    assert(drain(s).messages =~= step(s)->Next_emitted);
}

/// Every pin that a capability scan accumulates is well formed, because a
/// completed descriptor takes its first declared mode as the active one.
proof fn lemma_capability_scan_wf(
    sysex: Seq<u8>,
    i: int,
    end: int,
    modes: Seq<u8>,
    resolution: Option<u8>,
    acc: Seq<PinV>,
)
    requires
        forall|k: int| 0 <= k < acc.len() ==> (#[trigger] acc[k]).wf(),
    ensures
        capability_scan(sysex, i, end, modes, resolution, acc) matches Some(pins)
            ==> forall|k: int| 0 <= k < pins.len() ==> (#[trigger] pins[k]).wf(),
    decreases end + 2 - i,
{
    if i < 0 || i >= end {
    } else if sysex[i] == 127 {
        if modes.len() > 0 {
            let p = PinV {
                analog: false,
                mode: modes[0],
                modes,
                report_analog_active: false,
                report_digital_active: false,
                resolution: resolution->0,
                value: 0,
            };
            assert(p.modes.contains(p.mode));
            lemma_capability_scan_wf(sysex, i + 1, end, Seq::empty(), None, acc.push(p));
        }
    } else {
        lemma_capability_scan_wf(
            sysex,
            i + 2,
            end,
            modes.push(sysex[i]),
            if resolution is None {
                Some(sysex[i + 1])
            } else {
                resolution
            },
            acc,
        );
    }
}

/// The pin table a capability response rebuilds is well formed throughout:
/// each pin's active mode is among its supported modes.
pub proof fn lemma_capability_response_pins_wf(s: BoardV, end: int)
    requires
        1 <= end < s.buffer.len(),
        s.buffer[0] == START_SYSEX,
        s.buffer[1] == CAPABILITY_RESPONSE,
        step_sysex(s, end) is Next,
    ensures
        forall|k: int|
            0 <= k < (step_sysex(s, end)->Next_next).pins.len()
                ==> (#[trigger] (step_sysex(s, end)->Next_next).pins[k]).wf(),
{
    let b = s.buffer;
    let n = end + 1;
    lemma_capability_scan_wf(b.take(n), 4, end, Seq::empty(), None, Seq::empty());
    let scanned = capability_scan(b.take(n), 4, end, Seq::empty(), None, Seq::empty())->0;
    let pins = (step_sysex(s, end)->Next_next).pins;
    assert(pins == seq![default_reserved_pin(), default_reserved_pin()] + scanned);
    assert(default_reserved_pin().modes[0] == default_reserved_pin().mode);
    assert(default_reserved_pin().wf());
    assert forall|k: int| 0 <= k < pins.len() implies (#[trigger] pins[k]).wf() by {
        if k >= 2 {
            assert(pins[k] == scanned[k - 2]);
        }
    };
}

/// A successful `set_pin_mode` keeps the pin well formed: the new active
/// mode was checked against the pin's supported modes.
pub proof fn lemma_set_pin_mode_keeps_pin_wf(p: PinV, mode: u8)
    requires
        p.modes.contains(mode),
    ensures
        (PinV { mode, ..p }).wf(),
{
}

/// The decoder never touches the connection flag, and the one-shot latch
/// leaves it alone too: once `disconnect` has cleared it, nothing a later
/// `poll` does can set it back, so every later `write` or `poll` call keeps
/// failing with `Disconnected`, as their contracts state.
pub proof fn lemma_disconnected_is_absorbing(s: BoardV, new_bytes: Seq<u8>)
    ensures
        latched(s).connected == s.connected,
        poll_start(s, new_bytes).connected == s.connected,
        drain(s).state.connected == s.connected,
    decreases s.buffer.len(),
{
    if s.buffer.len() > 0 {
        match step(s) {
            StepV::Stop => {},
            StepV::Fail { next, error } => {},
            StepV::Next { next, emitted } => {
                lemma_step_progress(s);
                lemma_drain_next(s);
                lemma_disconnected_is_absorbing(next, new_bytes);
            },
        }
    }
}

} // verus!
