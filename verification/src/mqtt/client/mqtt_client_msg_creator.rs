use vstd::prelude::*;
use crate::mqtt::messages::disconnect_fixed_header::FixedHeader as DisconnectHeader;
use crate::mqtt::messages::disconnect_message::DisconnectMessage;
use crate::mqtt::messages::publish_message::PublishMessage;
use crate::mqtt::messages::publish_message::publish_built;
use crate::mqtt::mqtt_utils::mqtt_error::MqttError;
use crate::publish_flags::PublishFlags;
use crate::subscribe_message::SubscribeMessage;

verus! {

/// Builds the packets a client sends, handing each one that needs it the
/// next packet identifier: 1, 2, 3, and so on.
#[derive(Debug)]
pub struct MessageCreator {
    available_packet_id: u16,
}

impl MessageCreator {
    /// The packet identifier handed out last; 0 before the first.
    pub closed spec fn last_packet_id(&self) -> u16 {
        self.available_packet_id
    }

    /// A creator that has handed out no packet identifier yet.
    pub fn new() -> (r: MessageCreator)
        ensures
            r.last_packet_id() == 0,
    {
        MessageCreator { available_packet_id: 0 }
    }

    /// The packet identifier handed out last; 0 before the first.
    pub fn get_available_packet_id(&self) -> (r: u16)
        ensures
            r == self.last_packet_id(),
    {
        self.available_packet_id
    }

    /// A PUBLISH with flags dup 0, retain 0 and the given qos, for `topic` and
    /// `payload`, under a new packet identifier. Refuses a qos above 2, and,
    /// since a packet identifier is always given, a qos of 0.
    pub fn create_publish_msg(&mut self, topic: &str, payload: &[u8], qos: u8) -> (r: Result<
        PublishMessage,
        MqttError,
    >)
        requires
            old(self).last_packet_id() < 65535,
        ensures
            final(self).last_packet_id() == old(self).last_packet_id() + 1,
            qos > 2 ==> r == Err::<PublishMessage, MqttError>(MqttError::InvalidPublishFlags),
            qos == 0 ==> r == Err::<PublishMessage, MqttError>(MqttError::PacketIdentifierWithQos0),
            1 <= qos <= 2 ==> (r is Ok || r == Err::<PublishMessage, MqttError>(
                MqttError::ClockBeforeUnixEpoch,
            )),
            r matches Ok(m) ==> publish_built(
                m@,
                PublishFlags { dup: 0, qos, retain: 0 },
                topic@,
                Some(final(self).last_packet_id()),
                payload@,
            ),
    {
        let packet_id = self.generate_packet_id();
        let flags = match PublishFlags::new(0, qos, 0) {
            Ok(f) => f,
            Err(e) => return Err(e),
        };
        PublishMessage::new(flags, topic, Some(packet_id), payload)
    }

    /// A SUBSCRIBE to `topics_to_subscribe` under a new packet identifier.
    pub fn create_subscribe_msg(&mut self, topics_to_subscribe: Vec<(String, u8)>) -> (r: Result<
        SubscribeMessage,
        MqttError,
    >)
        requires
            old(self).last_packet_id() < 65535,
        ensures
            final(self).last_packet_id() == old(self).last_packet_id() + 1,
            r matches Ok(m) && m.packet_type == 8 && m.flags == 2 && m.packet_identifier
                == final(self).last_packet_id() && m.topic_filters@ == topics_to_subscribe@,
    {
        let packet_id = self.generate_packet_id();
        let subscribe_msg = SubscribeMessage::new(packet_id, topics_to_subscribe);
        Ok(subscribe_msg)
    }

    /// A DISCONNECT; it takes no packet identifier.
    pub fn create_disconnect_msg(&mut self) -> (r: Result<DisconnectMessage, MqttError>)
        ensures
            final(self).last_packet_id() == old(self).last_packet_id(),
            r == Ok::<DisconnectMessage, MqttError>(
                DisconnectMessage {
                    fixed_header: DisconnectHeader { message_type: 14, reserved: 0, remaining_length: 0 },
                },
            ),
    {
        let msg = DisconnectMessage::new();
        Ok(msg)
    }

    /// The next packet identifier: one more than the last one handed out.
    fn generate_packet_id(&mut self) -> (r: u16)
        requires
            old(self).available_packet_id < 65535,
        ensures
            r == old(self).available_packet_id + 1,
            final(self).available_packet_id == r,
    {
        self.available_packet_id = self.available_packet_id + 1;
        self.available_packet_id
    }
}

impl Default for MessageCreator {
    fn default() -> (r: Self)
        ensures
            r.last_packet_id() == 0,
    {
        Self::new()
    }
}

} // verus!
