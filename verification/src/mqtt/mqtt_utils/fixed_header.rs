use vstd::prelude::*;
use crate::mqtt::messages::packet_type::PacketType;
use crate::mqtt::messages::packet_type::packet_type_of;

verus! {

/// The first two bytes of every MQTT packet: the type in the four high bits
/// of the first byte (flags or zeros in the low four), and the remaining
/// length of the packet in the second.
#[derive(Debug, PartialEq, Eq, Clone, Copy, Structural)]
pub struct FixedHeader {
    pub message_type_byte: u8,
    pub remaining_length: u8,
}

impl FixedHeader {
    /// The fixed header is two bytes long.
    pub fn fixed_header_len() -> (r: usize)
        ensures
            r == 2,
    {
        2
    }

    /// The two bytes of the header.
    pub fn to_bytes(&self) -> (r: Vec<u8>)
        ensures
            r@ == seq![self.message_type_byte, self.remaining_length],
    {
        let mut v: Vec<u8> = Vec::new();
        v.push(self.message_type_byte);
        v.push(self.remaining_length);
        v
    }

    /// The header made of the first two bytes of `msg_bytes`.
    pub fn from_bytes(msg_bytes: Vec<u8>) -> (r: Self)
        requires
            msg_bytes@.len() >= 2,
        ensures
            r == (FixedHeader { message_type_byte: msg_bytes@[0], remaining_length: msg_bytes@[1] }),
    {
        let tipo = msg_bytes[0];
        let rem_len = msg_bytes[1];
        Self { message_type_byte: tipo, remaining_length: rem_len }
    }

    /// The packet type number: the four high bits of the first byte.
    pub fn get_message_type_byte(&self) -> (r: u8)
        ensures
            r == self.message_type_byte >> 4u8,
    {
        self.message_type_byte >> 4
    }

    /// The packet type.
    pub fn get_message_type(&self) -> (r: PacketType)
        ensures
            r == packet_type_of(self.message_type_byte >> 4u8),
    {
        PacketType::from(self.get_message_type_byte())
    }

    /// The remaining length.
    pub fn get_rem_len(&self) -> (r: usize)
        ensures
            r == self.remaining_length,
    {
        self.remaining_length as usize
    }

    /// Whether the header is anything other than two zero bytes.
    pub fn is_not_null(&self) -> (r: bool)
        ensures
            r == !(self.message_type_byte == 0 && self.remaining_length == 0),
    {
        !(self.message_type_byte == 0 && self.remaining_length == 0)
    }
}

/// The header read from a header's bytes is that header.
pub proof fn lemma_fixed_header_roundtrip(h: FixedHeader)
    ensures
        (FixedHeader {
            message_type_byte: seq![h.message_type_byte, h.remaining_length][0],
            remaining_length: seq![h.message_type_byte, h.remaining_length][1],
        }) == h,
{
}

} // verus!
