use vstd::prelude::*;
use crate::puback_message::PubAckMessage;
use crate::suback_message::SubAckMessage;

verus! {

/// An acknowledgement that the client waits for after sending a packet.
#[derive(Debug)]
pub enum ACKMessage {
    PubAck(PubAckMessage),
    SubAck(SubAckMessage),
}

impl ACKMessage {
    /// The packet identifier of the acknowledged packet.
    pub fn get_packet_id(&self) -> (r: Option<u16>)
        ensures
            r == Some(
                match self {
                    ACKMessage::PubAck(m) => m.packet_id,
                    ACKMessage::SubAck(m) => m.packet_identifier,
                },
            ),
    {
        match self {
            ACKMessage::PubAck(pub_ack_message) => Some(pub_ack_message.get_packet_id()),
            ACKMessage::SubAck(sub_ack_message) => Some(sub_ack_message.get_packet_id()),
        }
    }
}

} // verus!
