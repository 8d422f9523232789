use vstd::prelude::*;
use crate::unsuback_fixed_header::FixedHeader;
use crate::unsuback_variable_header::VariableHeader;

verus! {

/// An UNSUBACK packet: the server's acknowledgement of an UNSUBSCRIBE. It
/// has no payload.
pub struct Unsuback {
    pub fixed_header: FixedHeader,
    pub variable_header: VariableHeader,
}

impl Unsuback {
    /// An UNSUBACK of type 11 for the packet identifier whose bytes are given.
    pub fn new(packet_type_identifier_msb: u8, packet_type_identifier_lsb: u8) -> (r: Unsuback)
        ensures
            r.fixed_header.message_type == 11,
            r.fixed_header.reserved == 0,
            r.fixed_header.remaining_length == 2,
            r.variable_header.packet_type_identifier_msb == packet_type_identifier_msb,
            r.variable_header.packet_type_identifier_lsb == packet_type_identifier_lsb,
    {
        let variable_header = VariableHeader { packet_type_identifier_msb, packet_type_identifier_lsb };
        let fixed_header = FixedHeader { message_type: 0b1011, reserved: 0b0000, remaining_length: 2 };
        Unsuback { fixed_header, variable_header }
    }
}

} // verus!
