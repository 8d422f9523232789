use vstd::prelude::*;

verus! {

/// First two bytes of an UNSUBACK packet.
pub struct FixedHeader {
    /// Four high bits of the first byte: 11 for UNSUBACK.
    pub message_type: u8,
    /// Four low bits of the first byte: 0.
    pub reserved: u8,
    /// Always 2: the packet identifier alone follows.
    pub remaining_length: u8,
}

} // verus!
