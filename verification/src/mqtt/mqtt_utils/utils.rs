use vstd::prelude::*;
use crate::mqtt::messages::packet_type::PacketType;
use crate::mqtt::messages::packet_type::packet_type_of;
use crate::mqtt::messages::publish_message::PublishMessage;
use crate::mqtt::mqtt_utils::fixed_header::FixedHeader;
use crate::puback_message::PubAckMessage;

verus! {

/// Whether the header is that of a DISCONNECT packet.
pub fn is_disconnect_msg(fixed_header: &FixedHeader) -> (r: bool)
    ensures
        r == (packet_type_of(fixed_header.message_type_byte >> 4u8) == PacketType::Disconnect),
{
    fixed_header.get_message_type() == PacketType::Disconnect
}

/// The PUBACK owed for a received PUBLISH: one with its packet identifier and
/// reason code 0 when it has a packet identifier, none otherwise.
pub fn puback_to_send(msg: &PublishMessage) -> (r: Option<PubAckMessage>)
    ensures
        match msg.variable_header.packet_identifier {
            Some(id) => r == Some(PubAckMessage { tipo: 4, packet_id: id, puback_reason_code: 0 }),
            None => r is None,
        },
{
    match msg.get_packet_id() {
        Some(packet_id) => Some(PubAckMessage::new(packet_id, 0)),
        None => None,
    }
}

} // verus!
