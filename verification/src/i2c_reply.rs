//! A reply read back from an I2C device.

use vstd::prelude::*;

verus! {

/// Mathematical model of an [`I2CReply`].
#[verifier::ext_equal]
pub ghost struct I2CReplyV {
    pub address: u8,
    pub register: u8,
    pub data: Seq<u8>,
}

/// An I2C reply: address and register reassembled from 7-bit byte pairs,
/// followed by the data bytes.
#[derive(Debug, PartialEq, Eq)]
pub struct I2CReply {
    pub address: u8,
    pub register: u8,
    pub data: Vec<u8>,
}

impl View for I2CReply {
    type V = I2CReplyV;

    open spec fn view(&self) -> I2CReplyV {
        I2CReplyV { address: self.address, register: self.register, data: self.data@ }
    }
}

impl DeepView for I2CReply {
    type V = I2CReplyV;

    open spec fn deep_view(&self) -> I2CReplyV {
        self.view()
    }
}

} // verus!
