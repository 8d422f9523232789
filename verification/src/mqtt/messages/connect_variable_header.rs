use vstd::prelude::*;
use crate::mqtt::messages::connect_flags::ConnectFlags;

verus! {

/// The variable header of a CONNECT packet.
#[derive(Debug, PartialEq, Eq, Clone, Copy)]
pub struct VariableHeader {
    /// "MQTT" in ASCII.
    pub protocol_name: [u8; 4],
    /// 4 for MQTT 3.1.1.
    pub protocol_level: u8,
    pub connect_flags: ConnectFlags,
}

} // verus!
