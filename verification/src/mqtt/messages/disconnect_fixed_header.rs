use vstd::prelude::*;

verus! {

/// The single header byte of a DISCONNECT packet, split in its two halves.
#[derive(Debug, PartialEq, Eq, Clone, Copy, Structural)]
pub struct FixedHeader {
    /// Four high bits: 14 for DISCONNECT.
    pub message_type: u8,
    /// Four low bits: 0.
    pub reserved: u8,
    /// Always 0: nothing follows the header.
    pub remaining_length: u8,
}

} // verus!
