use vstd::prelude::*;

verus! {

/// The packet identifier of an UNSUBACK packet, as its two bytes.
pub struct VariableHeader {
    pub packet_type_identifier_msb: u8,
    pub packet_type_identifier_lsb: u8,
}

} // verus!
