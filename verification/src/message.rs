//! Decoded protocol events.

use vstd::prelude::*;

verus! {

/// Mathematical model of a [`Message`].
#[verifier::ext_equal]
pub ghost enum MessageV {
    ProtocolVersion(u8, u8),
    Analog(Seq<(u8, u16)>),
    Digital(Seq<(u8, bool)>),
    EmptyResponse,
    AnalogMappingResponse,
    CapabilityResponse,
    PinStateResponse,
    ReportFirmwareName(Seq<char>),
    ReportFirmwareVersion(Seq<char>),
    I2CReply,
}

/// A received Firmata message. The `Analog` and `Digital` variants carry
/// only the pins whose value actually changed in that frame.
#[derive(Clone, Debug, PartialEq, Eq)]
pub enum Message {
    ProtocolVersion(u8, u8),
    Analog(Vec<(u8, u16)>),
    Digital(Vec<(u8, bool)>),
    EmptyResponse,
    AnalogMappingResponse,
    CapabilityResponse,
    PinStateResponse,
    ReportFirmwareName(String),
    ReportFirmwareVersion(String),
    I2CReply,
}

impl View for Message {
    type V = MessageV;

    open spec fn view(&self) -> MessageV {
        match self {
            Message::ProtocolVersion(major, minor) => MessageV::ProtocolVersion(*major, *minor),
            Message::Analog(updates) => MessageV::Analog(updates@),
            Message::Digital(updates) => MessageV::Digital(updates@),
            Message::EmptyResponse => MessageV::EmptyResponse,
            Message::AnalogMappingResponse => MessageV::AnalogMappingResponse,
            Message::CapabilityResponse => MessageV::CapabilityResponse,
            Message::PinStateResponse => MessageV::PinStateResponse,
            Message::ReportFirmwareName(name) => MessageV::ReportFirmwareName(name@),
            Message::ReportFirmwareVersion(version) => MessageV::ReportFirmwareVersion(version@),
            Message::I2CReply => MessageV::I2CReply,
        }
    }
}

impl DeepView for Message {
    type V = MessageV;

    open spec fn deep_view(&self) -> MessageV {
        self.view()
    }
}

impl Message {
    /// The pin/value change list, when this is an analog message.
    pub fn try_as_analog(&self) -> (r: Option<&Vec<(u8, u16)>>)
        ensures
            match r {
                Some(updates) => self@ matches MessageV::Analog(u) && u == updates@,
                None => !(self@ matches MessageV::Analog(_)),
            },
    {
        if let Message::Analog(data) = self {
            Some(data)
        } else {
            None
        }
    }

    /// The pin/level change list, when this is a digital message.
    pub fn try_as_digital(&self) -> (r: Option<&Vec<(u8, bool)>>)
        ensures
            match r {
                Some(updates) => self@ matches MessageV::Digital(u) && u == updates@,
                None => !(self@ matches MessageV::Digital(_)),
            },
    {
        if let Message::Digital(data) = self {
            Some(data)
        } else {
            None
        }
    }
}

} // verus!
