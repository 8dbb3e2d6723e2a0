//! The protocol error taxonomy.

use vstd::prelude::*;

verus! {

/// Mathematical model of an [`Error`].
#[verifier::ext_equal]
pub ghost enum ErrorV {
    Disconnected,
    UnknownSysEx { code: u8 },
    BadByte(u8),
    Utf8,
    MessageTooShort,
    InvalidPinMode { pin: u8, modes: Seq<u8> },
    PinOutOfBounds { pin: u8, len: nat, source: Seq<char> },
}

/// Firmata error type.
#[derive(Debug)]
pub enum Error {
    /// There is no connection to the board.
    Disconnected,
    /// Unknown sysex sub-command code.
    UnknownSysEx { code: u8 },
    /// Received a bad leading byte.
    BadByte(u8),
    /// A firmware name was not valid UTF-8.
    Utf8,
    /// A complete frame lacked bytes that its command requires.
    MessageTooShort,
    /// The requested mode is not among the pin's supported modes.
    InvalidPinMode { pin: u8, modes: Vec<u8> },
    /// The pin index exceeds the current pin table.
    PinOutOfBounds { pin: u8, len: usize, source: String },
}

impl View for Error {
    type V = ErrorV;

    open spec fn view(&self) -> ErrorV {
        match self {
            Error::Disconnected => ErrorV::Disconnected,
            Error::UnknownSysEx { code } => ErrorV::UnknownSysEx { code: *code },
            Error::BadByte(byte) => ErrorV::BadByte(*byte),
            Error::Utf8 => ErrorV::Utf8,
            Error::MessageTooShort => ErrorV::MessageTooShort,
            Error::InvalidPinMode { pin, modes } => ErrorV::InvalidPinMode {
                pin: *pin,
                modes: modes@,
            },
            Error::PinOutOfBounds { pin, len, source } => ErrorV::PinOutOfBounds {
                pin: *pin,
                len: *len as nat,
                source: source@,
            },
        }
    }
}

impl Error {
    /// Whether this error is the `Disconnected` condition.
    pub fn is_disconnected(&self) -> (r: bool)
        ensures
            r == (self@ is Disconnected),
    {
        if let Error::Disconnected = self {
            true
        } else {
            false
        }
    }
}

} // verus!
