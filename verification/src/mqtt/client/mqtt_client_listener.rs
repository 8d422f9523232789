use vstd::prelude::*;
use crate::mqtt::client::ack_message::ACKMessage;
use crate::mqtt::messages::packet_type::PacketType;
use crate::mqtt::messages::packet_type::packet_type_of;
use crate::mqtt::messages::publish_message::PublishMessage;
use crate::mqtt::messages::publish_message::PublishModel;
use crate::mqtt::messages::publish_message::parse_publish;
use crate::mqtt::messages::publish_message::publish_parse_defined;
use crate::mqtt::mqtt_utils::fixed_header::FixedHeader;
use crate::mqtt::mqtt_utils::mqtt_error::MqttError;
use crate::mqtt::mqtt_utils::utils::is_disconnect_msg;
use crate::mqtt::mqtt_utils::utils::puback_to_send;
use crate::puback_message::PubAckMessage;
use crate::puback_message::parse_puback;
use crate::puback_message::puback_complete;
use crate::puback_message::puback_bytes;
use crate::suback_message::SubAckMessage;
use crate::suback_message::SubAckModel;
use crate::suback_message::parse_suback;

verus! {

/// What the client does with a packet read from the server.
pub enum ListenerAction {
    /// Hand the PUBLISH to the application, after sending the server these
    /// bytes (a PUBACK, or nothing when the PUBLISH has no packet identifier).
    Deliver(PublishMessage, Vec<u8>),
    /// Tell the retransmitter that this acknowledgement arrived.
    Acknowledge(ACKMessage),
    /// The server closes the connection: shut the stream down.
    Shutdown,
}

/// Decides what to do with the whole packet `msg_bytes` read from the
/// server: a DISCONNECT shuts down, a PUBLISH is delivered and acknowledged,
/// a PUBACK or SUBACK is passed on. Refuses other packet types, and packets
/// that do not read.
pub fn read_a_message(msg_bytes: Vec<u8>) -> (r: Result<ListenerAction, MqttError>)
    requires
        msg_bytes@.len() >= 2,
    ensures
        ({
            let b = msg_bytes@;
            let t = packet_type_of(b[0] >> 4u8);
            if t == PacketType::Disconnect {
                r matches Ok(ListenerAction::Shutdown)
            } else if t == PacketType::Publish {
                if !publish_parse_defined(b) {
                    r == Err::<ListenerAction, MqttError>(MqttError::NotEnoughBytes)
                } else {
                    match parse_publish(b) {
                        Err(e) => r == Err::<ListenerAction, MqttError>(e),
                        Ok(m) => r matches Ok(ListenerAction::Deliver(p, ack)) && p@ == m && ack@ == match m.packet_identifier {
                            Some(id) => puback_bytes(PubAckMessage { tipo: 4, packet_id: id, puback_reason_code: 0 }),
                            None => Seq::<u8>::empty(),
                        },
                    }
                }
            } else if t == PacketType::Puback {
                if !puback_complete(b) {
                    r == Err::<ListenerAction, MqttError>(MqttError::NotEnoughBytes)
                } else {
                    r matches Ok(ListenerAction::Acknowledge(ACKMessage::PubAck(a))) && a == parse_puback(b)
                }
            } else if t == PacketType::Suback {
                match parse_suback(b) {
                    None => r == Err::<ListenerAction, MqttError>(MqttError::NotEnoughBytes),
                    Some(Err(e)) => r == Err::<ListenerAction, MqttError>(e),
                    Some(Ok(m)) => r matches Ok(ListenerAction::Acknowledge(ACKMessage::SubAck(a))) && a@ == m,
                }
            } else {
                r == Err::<ListenerAction, MqttError>(MqttError::UnknownPacketType)
            }
        }),
{
    let fixed_header = FixedHeader { message_type_byte: msg_bytes[0], remaining_length: msg_bytes[1] };
    if is_disconnect_msg(&fixed_header) {
        return Ok(ListenerAction::Shutdown);
    }
    match fixed_header.get_message_type() {
        PacketType::Publish => {
            if !PublishMessage::can_parse(&msg_bytes) {
                return Err(MqttError::NotEnoughBytes);
            }
            let msg = match PublishMessage::from_bytes(msg_bytes) {
                Ok(m) => m,
                Err(e) => return Err(e),
            };
            let ack = match puback_to_send(&msg) {
                Some(a) => a.to_bytes(),
                None => Vec::new(),
            };
            Ok(ListenerAction::Deliver(msg, ack))
        },
        PacketType::Puback => {
            if msg_bytes.len() < 4 {
                return Err(MqttError::NotEnoughBytes);
            }
            match PubAckMessage::msg_from_bytes(msg_bytes) {
                Ok(m) => Ok(ListenerAction::Acknowledge(ACKMessage::PubAck(m))),
                Err(e) => Err(e),
            }
        },
        PacketType::Suback => {
            if !SubAckMessage::can_parse(&msg_bytes) {
                return Err(MqttError::NotEnoughBytes);
            }
            match SubAckMessage::from_bytes(msg_bytes) {
                Ok(m) => Ok(ListenerAction::Acknowledge(ACKMessage::SubAck(m))),
                Err(e) => Err(e),
            }
        },
        _ => Err(MqttError::UnknownPacketType),
    }
}

} // verus!
