use vstd::prelude::*;
use crate::mqtt::messages::packet_type::PacketType;
use crate::mqtt::messages::publish_message::PublishMessage;
use crate::mqtt::messages::publish_message::publish_bytes;
use crate::mqtt::messages::publish_message::publish_fits;

verus! {

/// A packet that can be queued for sending: it knows its packet identifier,
/// its type and its bytes.
pub trait Message: Send {
    /// Whether the packet's fields let `to_bytes` run.
    spec fn can_be_sent(&self) -> bool;

    fn get_packet_id(&self) -> Option<u16>;

    fn to_bytes(&self) -> Vec<u8>
        requires
            self.can_be_sent(),
    ;

    fn get_type(&self) -> PacketType;
}

impl Message for PublishMessage {
    open spec fn can_be_sent(&self) -> bool {
        publish_fits(self@)
    }

    fn get_packet_id(&self) -> (r: Option<u16>)
        ensures
            r == self.variable_header.packet_identifier,
    {
        PublishMessage::get_packet_id(self)
    }

    fn to_bytes(&self) -> (r: Vec<u8>)
        ensures
            r@ == publish_bytes(self@),
    {
        PublishMessage::to_bytes(self)
    }

    fn get_type(&self) -> (r: PacketType)
        ensures
            r == PacketType::Publish,
    {
        PacketType::Publish
    }
}

} // verus!
