use vstd::prelude::*;
use crate::mqtt::messages::disconnect_fixed_header::FixedHeader;

verus! {

/// A DISCONNECT packet: the client's notice that it closes the connection.
#[derive(Debug, PartialEq, Eq, Clone, Copy, Structural)]
pub struct DisconnectMessage {
    pub fixed_header: FixedHeader,
}

/// The byte a DISCONNECT packet is sent as.
pub open spec fn disconnect_bytes(m: DisconnectMessage) -> Seq<u8> {
    seq![(m.fixed_header.message_type << 4u8) | m.fixed_header.reserved]
}

/// The header read from the first byte of `b`.
pub open spec fn parse_disconnect(b: Seq<u8>) -> DisconnectMessage {
    DisconnectMessage {
        fixed_header: FixedHeader { message_type: b[0] >> 4u8, reserved: b[0] & 0x0Fu8, remaining_length: 0 },
    }
}

impl DisconnectMessage {
    /// A DISCONNECT of type 14.
    #[allow(clippy::new_without_default)]
    pub fn new() -> (r: DisconnectMessage)
        ensures
            r == (DisconnectMessage {
                fixed_header: FixedHeader { message_type: 14, reserved: 0, remaining_length: 0 },
            }),
    {
        let fixed_header = FixedHeader { message_type: 0b1110, reserved: 0b0000, remaining_length: 0 };
        DisconnectMessage { fixed_header }
    }

    /// The single byte of this packet.
    pub fn to_bytes(&self) -> (r: Vec<u8>)
        ensures
            r@ == disconnect_bytes(*self),
    {
        let mut v: Vec<u8> = Vec::new();
        v.push((self.fixed_header.message_type << 4) | self.fixed_header.reserved);
        v
    }

    /// Reads the header of a DISCONNECT packet from its first byte.
    pub fn from_bytes(bytes: &[u8]) -> (r: DisconnectMessage)
        requires
            bytes@.len() >= 1,
        ensures
            r == parse_disconnect(bytes@),
    {
        let fixed_header = FixedHeader {
            message_type: bytes[0] >> 4,
            reserved: bytes[0] & 0b00001111,
            remaining_length: 0,
        };
        DisconnectMessage { fixed_header }
    }
}

/// A DISCONNECT whose type and flags fit in four bits and whose remaining
/// length is 0 is read back unchanged from its byte.
pub proof fn lemma_disconnect_roundtrip(m: DisconnectMessage)
    requires
        m.fixed_header.message_type < 16,
        m.fixed_header.reserved < 16,
        m.fixed_header.remaining_length == 0,
    ensures
        parse_disconnect(disconnect_bytes(m)) == m,
{
    let (t, f) = (m.fixed_header.message_type, m.fixed_header.reserved);
    assert(t < 16 && f < 16 ==> ((t << 4u8) | f) >> 4u8 == t && ((t << 4u8) | f) & 0x0Fu8 == f)
        by (bit_vector);
}

} // verus!
