use vstd::prelude::*;
use crate::mqtt::messages::packet_type::PacketType;
use crate::mqtt::messages::publish_message::PublishMessage;
use crate::mqtt::messages::publish_message::parse_publish;
use crate::mqtt::messages::publish_message::publish_parse_defined;
use crate::mqtt::mqtt_utils::mqtt_error::MqttError;
use crate::subscribe_message::subs_msg_from_bytes;
use crate::subscribe_message::parse_subscribe;
use super::mqtt_server::topics_text;
use super::mqtt_server::MQTTServer;
use super::mqtt_server::queue_of;
use super::mqtt_server::server_wf;
use super::mqtt_server::writes_view;
use super::mqtt_server::MAX_TOPIC_MESSAGES;
use super::mqtt_server::has_user;
use super::mqtt_server::published;
use super::packet::Packet;
use super::user_state::UserState;
use crate::mqtt::messages::publish_message::PublishModel;
use crate::mqtt::messages::publish_message::publish_fits;
use crate::puback_message::PubAckMessage;
use crate::puback_message::puback_bytes;
use crate::subscribe_message::filters_view;
use crate::suback_message::SubAckModel;
use crate::suback_message::suback_bytes;
use crate::mqtt::messages::subscribe_return_code::SubscribeReturnCode;
use super::mqtt_server::subscribed_to_filters;
use super::mqtt_server::has_pending;
use super::mqtt_server::user_caught_up;
use super::mqtt_server::topic_list_writes;
use super::user::User;

verus! {

/// The PUBACK that acknowledges the PUBLISH `m`: reason code 0, and its
/// packet identifier, 0 when it has none.
pub open spec fn puback_for(m: PublishModel) -> PubAckMessage {
    PubAckMessage {
        tipo: 4,
        packet_id: match m.packet_identifier {
            Some(id) => id,
            None => 0,
        },
        puback_reason_code: 0,
    }
}

/// Some user named `name` is temporarily disconnected.
pub open spec fn sender_inactive(s: MQTTServer, name: Seq<char>) -> bool {
    exists|i: int|
        0 <= i < s.connected_users@.len() && (#[trigger] s.connected_users@[i]).username@ == name
            && s.connected_users@[i].state == UserState::TemporallyDisconnected
}

/// What the broker does with the PUBLISH `m` from user `sender`: a
/// temporarily disconnected sender changes nothing; otherwise the sender, if
/// it is a user, is acknowledged, and the message is refused when it is too
/// long to send again or its topic is full, and else kept and distributed.
pub open spec fn publish_handled(
    before: MQTTServer,
    after: MQTTServer,
    sender: Seq<char>,
    m: PublishModel,
    r: Result<(), MqttError>,
    old_out: Seq<(Seq<char>, Seq<u8>)>,
    new_out: Seq<(Seq<char>, Seq<u8>)>,
) -> bool {
    let ack_out = if has_user(before.connected_users@, sender) {
        old_out.push((sender, puback_bytes(puback_for(m))))
    } else {
        old_out
    };
    if sender_inactive(before, sender) {
        r == Ok::<(), MqttError>(()) && after == before && new_out == old_out
    } else if !publish_fits(m) {
        r == Err::<(), MqttError>(MqttError::PacketTooLong) && after == before && new_out == ack_out
    } else if queue_of(before.messages_by_topic@, m.topic_name).len() >= MAX_TOPIC_MESSAGES {
        r == Err::<(), MqttError>(MqttError::TopicQueueFull) && after == before && new_out == ack_out
    } else {
        published(before, after, m, r, ack_out, new_out)
    }
}

/// Applies the packets that users send to the broker's state, one at a
/// time, in the order they arrive.
pub struct MessageProcessor {
    pub mqtt_server: MQTTServer,
}

/// What the broker does with a SUBSCRIBE to the topics `topics` from user
/// `sender`: the messages kept do not change, nor does any other user, and
/// the sender, if it is a user, is subscribed to `topics` in order.
pub open spec fn subscribe_handled(before: MQTTServer, after: MQTTServer, sender: Seq<char>, topics: Seq<Seq<char>>) -> bool {
    &&& after.messages_by_topic == before.messages_by_topic
    &&& after.available_packet_id == before.available_packet_id
    &&& after.connected_users@.len() == before.connected_users@.len()
    &&& forall|j: int|
        0 <= j < before.connected_users@.len() ==> if (#[trigger] before.connected_users@[j]).username@ == sender {
            &&& after.connected_users@[j].username == before.connected_users@[j].username
            &&& after.connected_users@[j].state == before.connected_users@[j].state
            &&& topics_text(after.connected_users@[j].topics@) == topics_text(before.connected_users@[j].topics@) + topics
        } else {
            after.connected_users@[j] == before.connected_users@[j]
        }
}

/// The SUBACK that answers a SUBSCRIBE of `n` topic filters: packet
/// identifier 0, and qos 1 granted to each.
pub open spec fn suback_for(n: nat) -> SubAckModel {
    SubAckModel {
        message_type: 9,
        reserved_flags: 0,
        packet_identifier: 0,
        return_codes: Seq::new(n, |k: int| SubscribeReturnCode::QoS1),
    }
}

/// What a SUBSCRIBE to `filters` from user `sender` does to the users and to
/// the writes. No user of that name: nothing. Otherwise the user, subscribed
/// to the filters (`mid`), is sent what it missed of their topics and then
/// the SUBACK; a temporarily disconnected user is sent nothing, and keeps
/// its delivery indexes when it has messages to catch up on. The SUBACK is
/// only sent for at most 126 filters.
pub open spec fn subscribe_outcome(
    before: MQTTServer,
    after: MQTTServer,
    sender: Seq<char>,
    filters: Seq<(String, u8)>,
    old_out: Seq<(Seq<char>, Seq<u8>)>,
    new_out: Seq<(Seq<char>, Seq<u8>)>,
) -> bool {
    let msgs = before.messages_by_topic@;
    let list = filters.map_values(|f: (String, u8)| f.0);
    if !has_user(before.connected_users@, sender) {
        after.connected_users@ == before.connected_users@ && new_out == old_out
    } else {
        exists|i: int, mid: User|
            0 <= i < before.connected_users@.len() && (#[trigger] before.connected_users@[i]).username@ == sender
                && #[trigger] subscribed_to_filters(before.connected_users@[i], mid, filters) && ({
                let blocked = mid.state == UserState::TemporallyDisconnected && exists|k: int|
                    0 <= k < list.len() && has_pending(msgs, mid, (#[trigger] list[k])@);
                if blocked {
                    after.connected_users@[i] == mid && new_out == old_out
                } else {
                    &&& user_caught_up(msgs, mid, after.connected_users@[i], list, list.len() as int)
                    &&& new_out == old_out + topic_list_writes(msgs, mid, list, list.len() as int) + if mid.state
                        == UserState::TemporallyDisconnected || filters.len() > 126 {
                        Seq::empty()
                    } else {
                        seq![(sender, suback_bytes(suback_for(filters.len())))]
                    }
                }
            })
    }
}

impl MessageProcessor {
    /// A processor over the given broker state.
    pub fn new(mqtt_server: MQTTServer) -> (r: Self)
        ensures
            r.mqtt_server == mqtt_server,
    {
        MessageProcessor { mqtt_server }
    }

    /// Applies one packet from user `packet.username`, appending the writes
    /// it makes to `out`. A PUBLISH is acknowledged to its sender, then kept
    /// and distributed; a SUBSCRIBE subscribes its sender, sends it what it
    /// missed of the topics, then acknowledges it; a PUBACK changes nothing.
    /// Packets that do not read, and packets of other types, change nothing.
    /// Fails only when handling a PUBLISH fails: a PUBLISH too long to send,
    /// a topic already full, or a failed delivery. A SUBSCRIBE is read with
    /// `subs_msg_from_bytes`, which takes only its packet identifier from the
    /// bytes and always gives the single filter `topic1` with qos 1.
    pub fn process_packet(&mut self, packet: &Packet, out: &mut Vec<(String, Vec<u8>)>) -> (r: Result<(), MqttError>)
        requires
            server_wf(old(self).mqtt_server),
        ensures
            server_wf(final(self).mqtt_server),
            packet.message_type != PacketType::Publish && packet.message_type != PacketType::Subscribe ==> r == Ok::<(), MqttError>(())
                && *final(self) == *old(self) && writes_view(final(out)@) == writes_view(old(out)@),
            packet.message_type == PacketType::Publish && !(publish_parse_defined(packet.msg_bytes@) && parse_publish(packet.msg_bytes@) is Ok)
                ==> r == Ok::<(), MqttError>(()) && *final(self) == *old(self) && writes_view(final(out)@) == writes_view(old(out)@),
            packet.message_type == PacketType::Subscribe && packet.msg_bytes@.len() < 9 ==> r == Ok::<(), MqttError>(())
                && *final(self) == *old(self) && writes_view(final(out)@) == writes_view(old(out)@),
            packet.message_type == PacketType::Publish && publish_parse_defined(packet.msg_bytes@)
                && parse_publish(packet.msg_bytes@) is Ok ==> publish_handled(
                old(self).mqtt_server,
                final(self).mqtt_server,
                packet.username@,
                parse_publish(packet.msg_bytes@)->Ok_0,
                r,
                writes_view(old(out)@),
                writes_view(final(out)@),
            ),
            packet.message_type == PacketType::Subscribe && packet.msg_bytes@.len() >= 9 ==> r == Ok::<(), MqttError>(())
                && subscribe_handled(
                old(self).mqtt_server,
                final(self).mqtt_server,
                packet.username@,
                parse_subscribe(packet.msg_bytes@).topic_filters.map_values(|f: (Seq<char>, u8)| f.0),
            ),
            packet.message_type == PacketType::Subscribe && packet.msg_bytes@.len() >= 9 ==> exists|filters: Seq<(String, u8)>|
                filters_view(filters) == parse_subscribe(packet.msg_bytes@).topic_filters && #[trigger] subscribe_outcome(
                    old(self).mqtt_server,
                    final(self).mqtt_server,
                    packet.username@,
                    filters,
                    writes_view(old(out)@),
                    writes_view(final(out)@),
                ),
            r is Err ==> packet.message_type == PacketType::Publish,
    {
        let msg_bytes = packet.get_msg_bytes();
        let client_id = packet.get_username();
        match packet.get_message_type() {
            PacketType::Publish => self.handle_publish(msg_bytes, client_id, out),
            PacketType::Subscribe => {
                self.handle_subscribe(msg_bytes, client_id, out);
                Ok(())
            },
            _ => Ok(()),
        }
    }

    /// Reads a PUBLISH, acknowledges it to `client_id`, then keeps and
    /// distributes it.
    fn handle_publish(&mut self, msg_bytes: Vec<u8>, client_id: &str, out: &mut Vec<(String, Vec<u8>)>) -> (r: Result<(), MqttError>)
        requires
            server_wf(old(self).mqtt_server),
        ensures
            server_wf(final(self).mqtt_server),
            !(publish_parse_defined(msg_bytes@) && parse_publish(msg_bytes@) is Ok) ==> r == Ok::<(), MqttError>(())
                && *final(self) == *old(self) && writes_view(final(out)@) == writes_view(old(out)@),
            publish_parse_defined(msg_bytes@) && parse_publish(msg_bytes@) is Ok ==> publish_handled(
                old(self).mqtt_server,
                final(self).mqtt_server,
                client_id@,
                parse_publish(msg_bytes@)->Ok_0,
                r,
                writes_view(old(out)@),
                writes_view(final(out)@),
            ),
    {
        if !PublishMessage::can_parse(&msg_bytes) {
            return Ok(());
        }
        let publish_msg = match PublishMessage::from_bytes(msg_bytes) {
            Ok(m) => m,
            Err(_) => {
                return Ok(());
            },
        };
        let ghost s0 = self.mqtt_server;
        let ghost out0 = writes_view(out@);
        let acked = self.mqtt_server.send_puback_to(client_id, &publish_msg, out);
        proof {
            if has_user(s0.connected_users@, client_id@) {
                let i = choose|i: int|
                    0 <= i < s0.connected_users@.len() && (#[trigger] s0.connected_users@[i]).username@ == client_id@
                        && if s0.connected_users@[i].state == UserState::TemporallyDisconnected {
                        acked == Err::<(), MqttError>(MqttError::UserNotConnected) && writes_view(out@) == out0
                    } else {
                        acked == Ok::<(), MqttError>(()) && writes_view(out@) == out0.push((client_id@, puback_bytes(puback_for(publish_msg@))))
                    };
                if sender_inactive(s0, client_id@) {
                    let j = choose|j: int|
                        0 <= j < s0.connected_users@.len() && (#[trigger] s0.connected_users@[j]).username@ == client_id@
                            && s0.connected_users@[j].state == UserState::TemporallyDisconnected;
                    assert(i == j);
                }
            } else {
                assert(!sender_inactive(s0, client_id@));
            }
        }
        if acked.is_err() {
            return Ok(());
        }
        if !publish_msg.fits() {
            return Err(MqttError::PacketTooLong);
        }
        if !self.mqtt_server.topic_has_room(&publish_msg.get_topic()) {
            return Err(MqttError::TopicQueueFull);
        }
        self.mqtt_server.handle_publish_message(&publish_msg, out)
    }

    /// Reads a SUBSCRIBE, subscribes `client_id` to its topics, sends it what
    /// it missed of them, and acknowledges it.
    fn handle_subscribe(&mut self, msg_bytes: Vec<u8>, client_id: &str, out: &mut Vec<(String, Vec<u8>)>)
        requires
            server_wf(old(self).mqtt_server),
        ensures
            server_wf(final(self).mqtt_server),
            msg_bytes@.len() < 9 ==> *final(self) == *old(self) && writes_view(final(out)@) == writes_view(old(out)@),
            msg_bytes@.len() >= 9 ==> subscribe_handled(
                old(self).mqtt_server,
                final(self).mqtt_server,
                client_id@,
                parse_subscribe(msg_bytes@).topic_filters.map_values(|f: (Seq<char>, u8)| f.0),
            ),
            msg_bytes@.len() >= 9 ==> exists|filters: Seq<(String, u8)>|
                filters_view(filters) == parse_subscribe(msg_bytes@).topic_filters && #[trigger] subscribe_outcome(
                    old(self).mqtt_server,
                    final(self).mqtt_server,
                    client_id@,
                    filters,
                    writes_view(old(out)@),
                    writes_view(final(out)@),
                ),
    {
        if msg_bytes.len() < 9 {
            return;
        }
        let ghost topics = parse_subscribe(msg_bytes@).topic_filters.map_values(|f: (Seq<char>, u8)| f.0);
        let msg = match subs_msg_from_bytes(msg_bytes) {
            Ok(m) => m,
            Err(_) => {
                return;
            },
        };
        let ghost s0 = self.mqtt_server;
        let ghost out0 = writes_view(out@);
        let added = self.mqtt_server.add_topics_to_subscriber(client_id, &msg);
        let ghost s1 = self.mqtt_server;
        let _ = self.mqtt_server.send_preexisting_msgs_to_new_subscriber(client_id, &msg, out);
        let ghost s2 = self.mqtt_server;
        let ghost out2 = writes_view(out@);
        proof {
            let filters = msg.topic_filters@;
            assert(filters.map_values(|f: (String, u8)| f.0@) =~= topics);
            assert forall|j: int| 0 <= j < s0.connected_users@.len() implies if (#[trigger] s0.connected_users@[j]).username@ == client_id@ {
                &&& self.mqtt_server.connected_users@[j].username == s0.connected_users@[j].username
                &&& self.mqtt_server.connected_users@[j].state == s0.connected_users@[j].state
                &&& topics_text(self.mqtt_server.connected_users@[j].topics@) == topics_text(s0.connected_users@[j].topics@) + topics
            } else {
                self.mqtt_server.connected_users@[j] == s0.connected_users@[j]
            } by {
                assert(s1.connected_users@[j] == s0.connected_users@[j] || s0.connected_users@[j].username@ == client_id@);
                if s0.connected_users@[j].username@ == client_id@ {
                    assert(s1.connected_users@[j].username@ == client_id@);
                }
            }
        }
        let return_codes = match added {
            Ok(c) => c,
            Err(_) => {
                return;
            },
        };
        if return_codes.len() <= 126 {
            let _ = self.mqtt_server.send_suback_to(client_id, &return_codes, out);
        }
        proof {
            let filters = msg.topic_filters@;
            let list = filters.map_values(|f: (String, u8)| f.0);
            let msgs = s0.messages_by_topic@;
            assert(filters_view(filters) == parse_subscribe(msg_bytes@).topic_filters);
            if has_user(s0.connected_users@, client_id@) {
                let i = choose|i: int| 0 <= i < s0.connected_users@.len() && (#[trigger] s0.connected_users@[i]).username@ == client_id@;
                let mid = s1.connected_users@[i];
                assert(subscribed_to_filters(s0.connected_users@[i], mid, filters));
                assert(mid.username@ == client_id@);
                assert(has_user(s1.connected_users@, client_id@));
                let i2 = choose|i2: int|
                    0 <= i2 < s1.connected_users@.len() && (#[trigger] s1.connected_users@[i2]).username@ == client_id@
                        && (forall|j: int| 0 <= j < s1.connected_users@.len() && j != i2 ==> #[trigger] s2.connected_users@[j] == s1.connected_users@[j])
                        && ({
                        let u = s1.connected_users@[i2];
                        let blocked = u.state == UserState::TemporallyDisconnected && exists|k: int|
                            0 <= k < list.len() && has_pending(msgs, u, (#[trigger] list[k])@);
                        if blocked {
                            &&& s2.connected_users@[i2] == u
                            &&& out2 == out0
                        } else {
                            &&& user_caught_up(msgs, u, s2.connected_users@[i2], list, list.len() as int)
                            &&& out2 == out0 + topic_list_writes(msgs, u, list, list.len() as int)
                        }
                    });
                assert(i2 == i);
                assert(return_codes@ =~= suback_for(filters.len()).return_codes);
                assert(s2.connected_users@[i].username@ == client_id@);
                assert(s2.connected_users@[i].state == mid.state);
                assert(has_user(s2.connected_users@, client_id@));
                if return_codes.len() <= 126 {
                    let i3 = choose|i3: int|
                        0 <= i3 < s2.connected_users@.len() && (#[trigger] s2.connected_users@[i3]).username@ == client_id@
                            && if s2.connected_users@[i3].state == UserState::TemporallyDisconnected {
                            writes_view(out@) == out2
                        } else {
                            writes_view(out@) == out2.push((client_id@, suback_bytes(SubAckModel {
                                message_type: 9,
                                reserved_flags: 0,
                                packet_identifier: 0,
                                return_codes: return_codes@,
                            })))
                        };
                    assert(i3 == i);
                }
                assert(self.mqtt_server == s2);
                let blocked = mid.state == UserState::TemporallyDisconnected && exists|k: int|
                    0 <= k < list.len() && has_pending(msgs, mid, (#[trigger] list[k])@);
                if blocked {
                    assert(writes_view(out@) == out0);
                    assert(s2.connected_users@[i] == mid);
                } else {
                    assert(user_caught_up(msgs, mid, s2.connected_users@[i], list, list.len() as int));
                    assert(writes_view(out@) == out0 + topic_list_writes(msgs, mid, list, list.len() as int) + if mid.state
                        == UserState::TemporallyDisconnected || filters.len() > 126 {
                        Seq::empty()
                    } else {
                        seq![(client_id@, suback_bytes(suback_for(filters.len())))]
                    });
                }
                assert(subscribe_outcome(s0, self.mqtt_server, client_id@, filters, out0, writes_view(out@)));
            } else {
                assert(s1.connected_users@ =~= s0.connected_users@);
                assert(!has_user(s1.connected_users@, client_id@));
                assert(s2.connected_users@ == s0.connected_users@);
                assert(writes_view(out@) == out0);
                assert(subscribe_outcome(s0, self.mqtt_server, client_id@, filters, out0, writes_view(out@)));
            }
        }
    }
}

} // verus!
