use vstd::prelude::*;
use crate::mqtt::mqtt_utils::codec::be_u16_bytes;
use crate::mqtt::mqtt_utils::codec::push_u16_be;
use crate::mqtt::mqtt_utils::codec::u16_from_be;
use crate::mqtt::mqtt_utils::codec::u16_from_be_bytes;
use crate::mqtt::mqtt_utils::mqtt_error::MqttError;

verus! {

/// A PUBACK packet: the acknowledgement of a PUBLISH with qos 1.
#[derive(Debug, PartialEq, Eq, Clone, Copy, Structural)]
pub struct PubAckMessage {
    /// Packet type, sent in the four high bits of the first byte: always 4.
    pub tipo: u8,
    pub packet_id: u16,
    /// 0 means success and is not sent; any other code is sent after the
    /// packet identifier.
    pub puback_reason_code: u8,
}

/// Two bytes of packet identifier, plus one for a reason code other than 0.
pub open spec fn puback_remaining_length(m: PubAckMessage) -> u8 {
    if m.puback_reason_code != 0 {
        3
    } else {
        2
    }
}

/// The bytes a PUBACK packet is sent as.
pub open spec fn puback_bytes(m: PubAckMessage) -> Seq<u8> {
    seq![m.tipo << 4u8, puback_remaining_length(m)] + be_u16_bytes(m.packet_id) + (
    if m.puback_reason_code != 0 {
        seq![m.puback_reason_code]
    } else {
        Seq::empty()
    })
}

/// `b` holds a whole PUBACK: four bytes, and a fifth, the reason code, when
/// the remaining length is 3.
pub open spec fn puback_complete(b: Seq<u8>) -> bool {
    b.len() >= 4 && (b[1] == 3 ==> b.len() >= 5)
}

/// What reading a whole PUBACK packet from `b` gives. With a remaining
/// length of 3 the reason code is the byte after the packet identifier;
/// otherwise it is 0.
pub open spec fn parse_puback(b: Seq<u8>) -> PubAckMessage {
    PubAckMessage {
        tipo: (b[0] & 0xF0u8) >> 4u8,
        packet_id: u16_from_be(b[2], b[3]),
        puback_reason_code: if b[1] == 3 {
            b[4]
        } else {
            0
        },
    }
}

impl PubAckMessage {
    /// A PUBACK for `packet_id` with the given reason code.
    pub fn new(packet_id: u16, puback_reason_code: u8) -> (r: Self)
        ensures
            r == (PubAckMessage { tipo: 4, packet_id, puback_reason_code }),
    {
        PubAckMessage { tipo: 4, packet_id, puback_reason_code }
    }

    /// The packet identifier.
    pub fn get_packet_id(&self) -> (r: u16)
        ensures
            r == self.packet_id,
    {
        self.packet_id
    }

    /// The bytes of this packet, packet identifier most significant byte first.
    pub fn to_bytes(&self) -> (r: Vec<u8>)
        ensures
            r@ == puback_bytes(*self),
    {
        let mut msg_bytes: Vec<u8> = Vec::new();
        let mut byte_de_flags: u8 = 0;
        byte_de_flags = byte_de_flags | (self.tipo << 4);
        let t = self.tipo;
        assert(0u8 | (t << 4u8) == t << 4u8) by (bit_vector);
        msg_bytes.push(byte_de_flags);
        let rem_len: u8 = self.remaining_length();
        msg_bytes.push(rem_len);
        push_u16_be(&mut msg_bytes, self.packet_id);
        if self.puback_reason_code != 0 {
            msg_bytes.push(self.puback_reason_code);
        }
        msg_bytes
    }

    /// The remaining length: 2 for the packet identifier, plus 1 when a
    /// reason code other than 0 is sent.
    pub fn remaining_length(&self) -> (r: u8)
        ensures
            r == puback_remaining_length(*self),
    {
        let mut rem_len: u8 = 0;
        rem_len = rem_len + 2;
        if self.puback_reason_code != 0 {
            rem_len = rem_len + 1;
        }
        rem_len
    }

    /// Reads a PUBACK packet from its bytes; refuses one whose remaining
    /// length of 3 announces a reason code that is missing.
    pub fn msg_from_bytes(msg_bytes: Vec<u8>) -> (r: Result<PubAckMessage, MqttError>)
        requires
            msg_bytes@.len() >= 4,
        ensures
            r == if puback_complete(msg_bytes@) {
                Ok::<PubAckMessage, MqttError>(parse_puback(msg_bytes@))
            } else {
                Err::<PubAckMessage, MqttError>(MqttError::NotEnoughBytes)
            },
    {
        let flags_byte = msg_bytes[0];
        let mut tipo: u8 = flags_byte & 0b1111_0000;
        tipo = tipo >> 4;
        let remaining_len = msg_bytes[1];
        let packet_id = u16_from_be_bytes(msg_bytes[2], msg_bytes[3]);
        let mut puback_reason_code: u8 = 0;
        if remaining_len == 3 {
            if msg_bytes.len() < 5 {
                return Err(MqttError::NotEnoughBytes);
            }
            puback_reason_code = msg_bytes[4];
        }
        Ok(PubAckMessage { tipo, packet_id, puback_reason_code })
    }
}

/// A PUBACK whose type fits in four bits is read back unchanged from its
/// bytes, reason code included.
pub proof fn lemma_puback_roundtrip(m: PubAckMessage)
    requires
        m.tipo < 16,
    ensures
        puback_complete(puback_bytes(m)),
        parse_puback(puback_bytes(m)) == m,
{
    let t = m.tipo;
    assert(t < 16 ==> ((t << 4u8) & 0xF0u8) >> 4u8 == t) by (bit_vector);
    crate::mqtt::mqtt_utils::codec::lemma_u16_roundtrip(m.packet_id);
}

} // verus!
