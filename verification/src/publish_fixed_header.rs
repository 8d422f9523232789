use vstd::prelude::*;
use crate::publish_flags::PublishFlags;

verus! {

/// First two bytes of a PUBLISH packet as the first codec wrote them: the
/// packet type in the four high bits, the flags in the four low bits, then
/// the remaining length.
#[derive(Debug, Clone, Copy, PartialEq, Eq, Structural)]
pub struct FixedHeader {
    pub message_type: u8,
    pub flags: PublishFlags,
    pub remaining_length: u8,
}

} // verus!
