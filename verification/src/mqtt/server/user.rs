use vstd::prelude::*;
use crate::mqtt::messages::publish_message::PublishMessage;
use crate::mqtt::messages::publish_message::publish_built;
use crate::mqtt::mqtt_utils::codec::copy_string;
use crate::mqtt::mqtt_utils::codec::string_bytes;
use crate::mqtt::mqtt_utils::codec::text_bytes;
use crate::mqtt::mqtt_utils::mqtt_error::MqttError;
use crate::mqtt::mqtt_utils::will_message_utils::will_message::WillMessageAndTopic;
use crate::publish_flags::PublishFlags;
use super::entries::entry_of;
use super::entries::find_entry;
use super::entries::lemma_entry_of_push;
use super::entries::lemma_entry_of_update;
use super::user_state::UserState;

verus! {

/// The delivery index for `topic`: 0 when none is kept.
pub open spec fn last_id_of(ids: Seq<(String, u32)>, topic: Seq<char>) -> u32 {
    match entry_of(ids, topic) {
        Some(x) => x,
        None => 0,
    }
}

/// Whether `topic` is among `topics`.
pub open spec fn has_topic(topics: Seq<String>, topic: Seq<char>) -> bool {
    exists|i: int| 0 <= i < topics.len() && #[trigger] topics[i]@ == topic
}

/// A client as the server sees it. For each topic it is subscribed to, the
/// user keeps the index, in the server's queue of messages of that topic, of
/// the next message to send it: every message before it was delivered.
#[derive(Debug)]
pub struct User {
    pub username: String,
    pub state: UserState,
    pub will_message: Option<WillMessageAndTopic>,
    /// Topics subscribed to, in order of subscription, repeats included.
    pub topics: Vec<String>,
    /// Delivery index per topic.
    pub last_id_by_topic: Vec<(String, u32)>,
}

/// Whether `topic` is among `topics`.
pub fn contains_topic(topics: &Vec<String>, topic: &String) -> (r: bool)
    ensures
        r == has_topic(topics@, topic@),
{
    let mut i: usize = 0;
    while i < topics.len()
        invariant
            i <= topics@.len(),
            forall|j: int| 0 <= j < i ==> (#[trigger] topics@[j])@ != topic@,
        decreases topics@.len() - i,
    {
        if topics[i].eq(topic) {
            assert(topics@[i as int]@ == topic@);
            return true;
        }
        i = i + 1;
    }
    false
}

impl User {
    /// An active user with no subscriptions, keeping its will message if any.
    pub fn new(username: String, will_msg_and_topic: Option<WillMessageAndTopic>) -> (r: Self)
        ensures
            r.username@ == username@,
            r.state == UserState::Active,
            r.will_message == will_msg_and_topic,
            r.topics@.len() == 0,
            r.last_id_by_topic@.len() == 0,
    {
        User {
            username,
            state: UserState::Active,
            will_message: will_msg_and_topic,
            topics: Vec::new(),
            last_id_by_topic: Vec::new(),
        }
    }

    /// The user's name.
    pub fn get_username(&self) -> (r: String)
        ensures
            r@ == self.username@,
    {
        copy_string(&self.username)
    }

    /// Whether the user is not temporarily disconnected.
    pub fn is_not_disconnected(&self) -> (r: bool)
        ensures
            r == (self.state != UserState::TemporallyDisconnected),
    {
        self.state != UserState::TemporallyDisconnected
    }

    /// The user's state.
    pub fn get_state(&self) -> (r: &UserState)
        ensures
            *r == self.state,
    {
        &self.state
    }

    /// The PUBLISH of the user's will message, if it has one: with the given
    /// dup flag and packet identifier, the will qos and retain flag. Refuses
    /// flags out of range, and a qos of 0 (a packet identifier is given).
    pub fn get_publish_message_with(&self, dup_flag: u8, packet_id: u16) -> (r: Result<
        Option<PublishMessage>,
        MqttError,
    >)
        ensures
            self.will_message is None ==> r == Ok::<Option<PublishMessage>, MqttError>(None),
            self.will_message matches Some(w) ==> {
                &&& (dup_flag > 1 || w.qos > 2 || w.will_retain > 1) ==> r == Err::<
                    Option<PublishMessage>,
                    MqttError,
                >(MqttError::InvalidPublishFlags)
                &&& (!(dup_flag > 1 || w.qos > 2 || w.will_retain > 1) && w.qos == 0) ==> r
                    == Err::<Option<PublishMessage>, MqttError>(
                    MqttError::PacketIdentifierWithQos0,
                )
                &&& (!(dup_flag > 1 || w.qos > 2 || w.will_retain > 1) && w.qos > 0) ==> (r is Ok
                    || r == Err::<Option<PublishMessage>, MqttError>(
                    MqttError::ClockBeforeUnixEpoch,
                ))
                &&& r matches Ok(o) ==> (o matches Some(m) && publish_built(
                    m@,
                    PublishFlags { dup: dup_flag, qos: w.qos, retain: w.will_retain },
                    w.will_topic@,
                    Some(packet_id),
                    text_bytes(w.will_message_content@),
                ) && m@.content.len() == 8 * (text_bytes(w.will_message_content@).len() / 8) + 8)
            },
    {
        match &self.will_message {
            Some(info) => {
                let flags = match PublishFlags::new(dup_flag, info.get_qos(), info.get_will_retain()) {
                    Ok(f) => f,
                    Err(e) => return Err(e),
                };
                let topic = info.get_will_topic();
                let content = info.get_will_msg_content();
                match PublishMessage::new(flags, topic.as_str(), Some(packet_id), string_bytes(&content)) {
                    Ok(m) => Ok(Some(m)),
                    Err(e) => Err(e),
                }
            },
            None => Ok(None),
        }
    }

    /// The delivery index for `topic`: 0 when the user keeps none.
    pub fn get_last_id_by_topic(&self, topic: &String) -> (r: u32)
        ensures
            r == last_id_of(self.last_id_by_topic@, topic@),
    {
        match find_entry(&self.last_id_by_topic, topic) {
            Some(i) => self.last_id_by_topic[i].1,
            None => 0,
        }
    }

    /// Sets the delivery index for `topic`.
    pub fn update_last_id_by_topic(&mut self, topic: &String, last_id: u32)
        ensures
            final(self).username == old(self).username,
            final(self).state == old(self).state,
            final(self).will_message == old(self).will_message,
            final(self).topics == old(self).topics,
            forall|t: Seq<char>|
                #![trigger entry_of(final(self).last_id_by_topic@, t)]
                entry_of(final(self).last_id_by_topic@, t) == if t == topic@ {
                    Some(last_id)
                } else {
                    entry_of(old(self).last_id_by_topic@, t)
                },
    {
        let ghost before = self.last_id_by_topic@;
        match find_entry(&self.last_id_by_topic, topic) {
            Some(i) => {
                let entry = (copy_string(topic), last_id);
                self.last_id_by_topic.set(i, entry);
                proof {
                    assert forall|t: Seq<char>|
                        #![trigger entry_of(self.last_id_by_topic@, t)]
                        entry_of(self.last_id_by_topic@, t) == if t == topic@ {
                            Some(last_id)
                        } else {
                            entry_of(before, t)
                        } by {
                        lemma_entry_of_update(before, i as int, entry, t);
                    }
                }
            },
            None => {
                let entry = (copy_string(topic), last_id);
                self.last_id_by_topic.push(entry);
                proof {
                    assert forall|t: Seq<char>|
                        #![trigger entry_of(self.last_id_by_topic@, t)]
                        entry_of(self.last_id_by_topic@, t) == if t == topic@ {
                            Some(last_id)
                        } else {
                            entry_of(before, t)
                        } by {
                        lemma_entry_of_push(before, entry, t);
                    }
                }
            },
        }
    }

    /// The topics the user is subscribed to.
    pub fn get_topics(&self) -> (r: &Vec<String>)
        ensures
            r@ == self.topics@,
    {
        &self.topics
    }

    /// Subscribes the user to `topic`, with delivery index 0 when it keeps
    /// none for that topic.
    pub fn add_topic(&mut self, topic: String)
        ensures
            final(self).username == old(self).username,
            final(self).state == old(self).state,
            final(self).will_message == old(self).will_message,
            final(self).topics@ == old(self).topics@.push(topic),
            forall|t: Seq<char>|
                #![trigger entry_of(final(self).last_id_by_topic@, t)]
                entry_of(final(self).last_id_by_topic@, t) == if t == topic@ && entry_of(
                    old(self).last_id_by_topic@,
                    t,
                ) is None {
                    Some(0u32)
                } else {
                    entry_of(old(self).last_id_by_topic@, t)
                },
    {
        let ghost before = self.last_id_by_topic@;
        let key = copy_string(&topic);
        self.topics.push(topic);
        match find_entry(&self.last_id_by_topic, &key) {
            Some(_) => {},
            None => {
                let entry = (key, 0u32);
                self.last_id_by_topic.push(entry);
                proof {
                    assert forall|t: Seq<char>|
                        #![trigger entry_of(self.last_id_by_topic@, t)]
                        entry_of(self.last_id_by_topic@, t) == if t == entry.0@ && entry_of(before, t)
                            is None {
                            Some(0u32)
                        } else {
                            entry_of(before, t)
                        } by {
                        lemma_entry_of_push(before, entry, t);
                    }
                }
            },
        }
    }

    /// Sets the user's state.
    pub fn set_state(&mut self, state: UserState)
        ensures
            final(self).state == state,
            final(self).username == old(self).username,
            final(self).will_message == old(self).will_message,
            final(self).topics == old(self).topics,
            final(self).last_id_by_topic == old(self).last_id_by_topic,
    {
        self.state = state;
    }
}

} // verus!
