use vstd::prelude::*;
use crate::mqtt::mqtt_utils::codec::copy_string;

verus! {

/// The will message of a connected client, taken from its CONNECT packet and
/// kept by the server to build the PUBLISH sent to the will topic when the
/// client goes away.
#[derive(Debug, PartialEq)]
pub struct WillMessageAndTopic {
    pub will_message_content: String,
    pub will_topic: String,
    pub qos: u8,
    pub will_retain: u8,
}

/// A kept will message as plain values: content, topic, qos and retain.
pub open spec fn will_view(w: Option<WillMessageAndTopic>) -> Option<(Seq<char>, Seq<char>, u8, u8)> {
    match w {
        Some(w) => Some((w.will_message_content@, w.will_topic@, w.qos, w.will_retain)),
        None => None,
    }
}

impl WillMessageAndTopic {
    pub fn new(will_message_content: String, will_topic: String, qos: u8, will_retain: u8) -> (r:
        Self)
        ensures
            r.will_message_content@ == will_message_content@,
            r.will_topic@ == will_topic@,
            r.qos == qos,
            r.will_retain == will_retain,
    {
        Self { will_message_content, will_topic, qos, will_retain }
    }

    pub fn get_will_msg_content(&self) -> (r: String)
        ensures
            r@ == self.will_message_content@,
    {
        copy_string(&self.will_message_content)
    }

    pub fn get_will_topic(&self) -> (r: String)
        ensures
            r@ == self.will_topic@,
    {
        copy_string(&self.will_topic)
    }

    pub fn get_qos(&self) -> (r: u8)
        ensures
            r == self.qos,
    {
        self.qos
    }

    pub fn get_will_retain(&self) -> (r: u8)
        ensures
            r == self.will_retain,
    {
        self.will_retain
    }
}

} // verus!
