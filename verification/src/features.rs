//! The transport capabilities that decide whether the narrow encoder is on
//! offer.

use crate::utf16::encode_utf16;
use crate::utils::str_encode_utf16;
use crate::wide::le_bytes;
use vstd::prelude::*;

verus! {

/// The transports that the binding was configured with.
#[derive(Clone, Copy, Debug, PartialEq, Eq, Structural)]
pub struct TransportFeatures {
    /// Smart-card transport.
    pub scard: bool,
    /// Terminal-services transport.
    pub tsssp: bool,
}

impl TransportFeatures {
    /// True when some transport asks for text as flat UTF-16 bytes.
    pub open spec fn narrow_encoding(self) -> bool {
        self.scard || self.tsssp
    }

    /// Tells whether the narrow encoder is on offer.
    pub fn has_narrow_encoding(&self) -> (enabled: bool)
        ensures
            enabled == self.narrow_encoding(),
    {
        self.scard || self.tsssp
    }

    /// The narrow encoding of `data` where a transport asks for it, nothing
    /// otherwise.
    pub fn encode_narrow(&self, data: &str) -> (bytes: Option<Vec<u8>>)
        ensures
            bytes is Some <==> self.narrow_encoding(),
            bytes matches Some(b) ==> b@ == le_bytes(encode_utf16(data@)),
    {
        if self.has_narrow_encoding() {
            Some(str_encode_utf16(data))
        } else {
            None
        }
    }
}

} // verus!
