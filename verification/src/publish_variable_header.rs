use vstd::prelude::*;

verus! {

/// The variable header of a PUBLISH packet.
#[derive(Debug, Clone, PartialEq)]
pub struct VariableHeader {
    /// Sent as its length in two bytes, then its UTF-8 bytes.
    pub topic_name: String,
    /// Sent in two bytes; present only when the QoS is 1 or 2.
    pub packet_identifier: Option<u16>,
}

} // verus!
