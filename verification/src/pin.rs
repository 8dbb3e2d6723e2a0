//! The state and configuration of a single pin.

use vstd::prelude::*;

use crate::constants::DEFAULT_ANALOG_RESOLUTION;
use crate::constants::PIN_MODE_ANALOG;

verus! {

/// Mathematical model of a [`Pin`].
#[verifier::ext_equal]
pub ghost struct PinV {
    pub analog: bool,
    pub mode: u8,
    pub modes: Seq<u8>,
    pub report_analog_active: bool,
    pub report_digital_active: bool,
    pub resolution: u8,
    pub value: u16,
}

impl PinV {
    /// The capability invariant: once the supported modes are known,
    /// the active mode is one of them.
    pub open spec fn wf(self) -> bool {
        self.modes.len() > 0 ==> self.modes.contains(self.mode)
    }
}

/// The default pin used for the reserved table slots: an analog-only pin
/// with digital reporting already active.
pub open spec fn default_reserved_pin() -> PinV {
    PinV {
        analog: false,
        mode: PIN_MODE_ANALOG,
        modes: seq![PIN_MODE_ANALOG],
        report_analog_active: false,
        report_digital_active: true,
        resolution: DEFAULT_ANALOG_RESOLUTION,
        value: 0,
    }
}

/// The current state and configuration of a pin.
#[derive(Debug)]
pub struct Pin {
    /// Whether this is an analog pin or not.
    pub analog: bool,
    /// Currently configured mode.
    pub mode: u8,
    /// All supported pin modes.
    pub modes: Vec<u8>,
    /// The report analog state.
    pub report_analog_active: bool,
    /// The report digital state.
    pub report_digital_active: bool,
    /// Current resolution.
    pub resolution: u8,
    /// Pin value: 0 or 1 for a digital pin, up to the 14-bit analog
    /// magnitude for an analog one.
    pub value: u16,
}

impl View for Pin {
    type V = PinV;

    open spec fn view(&self) -> PinV {
        PinV {
            analog: self.analog,
            mode: self.mode,
            modes: self.modes@,
            report_analog_active: self.report_analog_active,
            report_digital_active: self.report_digital_active,
            resolution: self.resolution,
            value: self.value,
        }
    }
}

impl DeepView for Pin {
    type V = PinV;

    open spec fn deep_view(&self) -> PinV {
        self.view()
    }
}

impl Pin {
    /// A fresh pin for the reserved table slots, with digital reporting active.
    pub fn default_with_report_digital_active() -> (p: Self)
        ensures
            p@ == default_reserved_pin(),
    {
        let mut modes: Vec<u8> = Vec::new();
        modes.push(PIN_MODE_ANALOG);
        let p = Pin {
            analog: false,
            mode: PIN_MODE_ANALOG,
            modes,
            report_analog_active: false,
            report_digital_active: true,
            resolution: DEFAULT_ANALOG_RESOLUTION,
            value: 0,
        };
        proof {
            assert(p@.modes =~= default_reserved_pin().modes);
        }
        p
    }
}

} // verus!
