use vstd::prelude::*;
use crate::mqtt::mqtt_utils::codec::be_u16_bytes;
use crate::mqtt::mqtt_utils::codec::push_u16_be;
use crate::mqtt::mqtt_utils::codec::text_bytes;
use crate::mqtt::mqtt_utils::codec::text_len;
use crate::mqtt::mqtt_utils::codec::u16_from_be;
use crate::mqtt::mqtt_utils::codec::u16_from_be_bytes;
use crate::mqtt::mqtt_utils::mqtt_error::MqttError;

verus! {

/// What a SUBSCRIBE packet holds, with topic names as character sequences.
pub struct SubscribeModel {
    pub packet_type: u8,
    pub flags: u8,
    pub packet_identifier: u16,
    pub topic_filters: Seq<(Seq<char>, u8)>,
}

/// A SUBSCRIBE packet: the topic filters a client subscribes to, each with
/// the qos it asks for.
#[derive(Debug, PartialEq)]
pub struct SubscribeMessage {
    /// Always 8.
    pub packet_type: u8,
    /// Always 2.
    pub flags: u8,
    pub packet_identifier: u16,
    /// Pairs of topic name and qos.
    pub topic_filters: Vec<(String, u8)>,
}

/// The text of each topic filter, with its qos.
pub open spec fn filters_view(v: Seq<(String, u8)>) -> Seq<(Seq<char>, u8)> {
    v.map_values(|p: (String, u8)| (p.0@, p.1))
}

impl View for SubscribeMessage {
    type V = SubscribeModel;

    open spec fn view(&self) -> SubscribeModel {
        SubscribeModel {
            packet_type: self.packet_type,
            flags: self.flags,
            packet_identifier: self.packet_identifier,
            topic_filters: filters_view(self.topic_filters@),
        }
    }
}

/// A number kept in sixteen bits: its remainder modulo 65536.
pub open spec fn low16(n: nat) -> u16 {
    (n % 65536) as u16
}

/// Each topic filter as the byte length of its name, kept in sixteen bits,
/// followed by its qos byte. The name's own bytes are not sent.
pub open spec fn filters_bytes(fs: Seq<(Seq<char>, u8)>) -> Seq<u8>
    decreases fs.len(),
{
    if fs.len() == 0 {
        Seq::empty()
    } else {
        filters_bytes(fs.drop_last()) + be_u16_bytes(low16(text_bytes(fs.last().0).len()))
            + seq![fs.last().1]
    }
}

/// The bytes a SUBSCRIBE packet is sent as: type, flags, packet identifier,
/// the number of topic filters in sixteen bits, then the filters.
pub open spec fn subscribe_bytes(m: SubscribeModel) -> Seq<u8> {
    seq![m.packet_type, m.flags] + be_u16_bytes(m.packet_identifier) + be_u16_bytes(
        low16(m.topic_filters.len()),
    ) + filters_bytes(m.topic_filters)
}

/// What reading a SUBSCRIBE packet (at least nine bytes) gives: the packet
/// identifier from bytes 2 and 3, and always the single filter `topic1`
/// with qos 1.
pub open spec fn parse_subscribe(b: Seq<u8>) -> SubscribeModel {
    SubscribeModel {
        packet_type: 8,
        flags: 2,
        packet_identifier: u16_from_be(b[2], b[3]),
        topic_filters: seq![("topic1"@, 1u8)],
    }
}

impl SubscribeMessage {
    /// A SUBSCRIBE of type 8 and flags 2.
    pub fn new(packet_id: u16, topics: Vec<(String, u8)>) -> (r: Self)
        ensures
            r.packet_type == 8,
            r.flags == 2,
            r.packet_identifier == packet_id,
            r.topic_filters@ == topics@,
    {
        SubscribeMessage {
            packet_type: 8,
            flags: 2,
            packet_identifier: packet_id,
            topic_filters: topics,
        }
    }

    /// The topic filters with their qos.
    pub fn get_topic_filters(&self) -> (r: &Vec<(String, u8)>)
        ensures
            r@ == self.topic_filters@,
    {
        &self.topic_filters
    }

    /// The bytes of this packet, numbers most significant byte first.
    pub fn to_bytes(&self) -> (r: Vec<u8>)
        ensures
            r@ == subscribe_bytes(self@),
    {
        let mut msg_bytes: Vec<u8> = Vec::new();
        msg_bytes.push(self.packet_type);
        msg_bytes.push(self.flags);
        push_u16_be(&mut msg_bytes, self.packet_identifier);
        let topic_filters_len: u16 = (self.topic_filters.len() % 65536) as u16;
        push_u16_be(&mut msg_bytes, topic_filters_len);
        let ghost head = msg_bytes@;
        let ghost fs = filters_view(self.topic_filters@);
        let mut i: usize = 0;
        while i < self.topic_filters.len()
            invariant
                i <= self.topic_filters@.len(),
                fs == filters_view(self.topic_filters@),
                msg_bytes@ == head + filters_bytes(fs.subrange(0, i as int)),
            decreases self.topic_filters@.len() - i,
        {
            let topic = &self.topic_filters[i];
            let topic_str_len: u16 = (text_len(&topic.0) % 65536) as u16;
            push_u16_be(&mut msg_bytes, topic_str_len);
            msg_bytes.push(topic.1);
            i = i + 1;
            proof {
                assert(fs.subrange(0, i as int).drop_last() =~= fs.subrange(0, i - 1));
                assert(fs.subrange(0, i as int).last() == fs[i - 1]);
            }
        }
        assert(fs.subrange(0, i as int) =~= fs);
        msg_bytes
    }
}

/// Reads a SUBSCRIBE packet of at least nine bytes. Only the packet
/// identifier is taken from the bytes; the packet always holds the single
/// topic filter `topic1` with qos 1.
pub fn subs_msg_from_bytes(mgs_bytes: Vec<u8>) -> (r: Result<SubscribeMessage, MqttError>)
    requires
        mgs_bytes@.len() >= 9,
    ensures
        r matches Ok(m) && m@ == parse_subscribe(mgs_bytes@),
{
    let packet_id = u16_from_be_bytes(mgs_bytes[2], mgs_bytes[3]);
    let topic = String::from_str("topic1");
    let mut topics_to_subscribe: Vec<(String, u8)> = Vec::new();
    topics_to_subscribe.push((topic, 1));
    let m = SubscribeMessage::new(packet_id, topics_to_subscribe);
    assert(filters_view(m.topic_filters@) =~= seq![("topic1"@, 1u8)]);
    Ok(m)
}

} // verus!
