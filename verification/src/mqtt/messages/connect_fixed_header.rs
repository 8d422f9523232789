use vstd::prelude::*;

verus! {

/// First two bytes of a CONNECT packet.
#[derive(Debug, PartialEq, Eq, Clone, Copy, Structural)]
pub struct FixedHeader {
    /// The whole first byte: the packet type in the four high bits.
    pub message_type: u8,
    pub remaining_length: u8,
}

} // verus!
