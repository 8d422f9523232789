use vstd::prelude::*;
use crate::publish_flags::PublishFlags;

verus! {

/// First two bytes of a PUBLISH packet.
#[derive(Debug, Clone, Copy, PartialEq, Eq)]
pub struct FixedHeader {
    /// Byte 1: the flags, which also carry the packet type.
    pub flags: PublishFlags,
    /// Byte 2.
    pub remaining_length: u8,
}

} // verus!
