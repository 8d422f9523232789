use vstd::prelude::*;
use vstd::utf8::decode_utf8;
use vstd::utf8::valid_utf8;
use crate::mqtt::mqtt_utils::codec::decode_text;
use crate::mqtt::mqtt_utils::codec::push_slice;
use crate::mqtt::mqtt_utils::codec::string_bytes;
use crate::mqtt::mqtt_utils::codec::text_bytes;
use crate::mqtt::mqtt_utils::codec::text_len;
use crate::mqtt::mqtt_utils::mqtt_error::MqttError;

verus! {

broadcast use vstd::utf8::encode_utf8_valid_utf8, vstd::utf8::encode_utf8_decode_utf8;

/// First two bytes of an UNSUBSCRIBE packet.
#[derive(Debug)]
pub struct FixedHeader {
    /// Always 10.
    pub message_type: u8,
    /// Always 2.
    pub reserved: u8,
    pub remaining_length: usize,
}

/// The packet identifier of an UNSUBSCRIBE packet.
#[derive(Debug)]
pub struct VariableHeader {
    pub packet_identifier: u16,
}

/// The topics to unsubscribe from.
#[derive(Debug)]
pub struct Payload {
    pub topics: Vec<String>,
}

/// An UNSUBSCRIBE packet: the topics a client no longer wants messages from.
#[derive(Debug)]
pub struct UnsubscribeMessage {
    pub fixed_header: FixedHeader,
    pub variable_header: VariableHeader,
    pub payload: Payload,
}

/// What an UNSUBSCRIBE packet holds, with topics as character sequences.
pub struct UnsubscribeModel {
    pub message_type: u8,
    pub reserved: u8,
    pub remaining_length: nat,
    pub packet_identifier: u16,
    pub topics: Seq<Seq<char>>,
}

/// The text of each topic.
pub open spec fn topics_view(v: Seq<String>) -> Seq<Seq<char>> {
    v.map_values(|s: String| s@)
}

impl View for UnsubscribeMessage {
    type V = UnsubscribeModel;

    open spec fn view(&self) -> UnsubscribeModel {
        UnsubscribeModel {
            message_type: self.fixed_header.message_type,
            reserved: self.fixed_header.reserved,
            remaining_length: self.fixed_header.remaining_length as nat,
            packet_identifier: self.variable_header.packet_identifier,
            topics: topics_view(self.payload.topics@),
        }
    }
}

/// One byte of length plus the UTF-8 bytes of each topic.
pub open spec fn topic_bytes_length(ts: Seq<Seq<char>>) -> nat
    decreases ts.len(),
{
    if ts.len() == 0 {
        0
    } else {
        topic_bytes_length(ts.drop_last()) + 1 + text_bytes(ts.last()).len()
    }
}

/// Two bytes of packet identifier plus the topics.
pub open spec fn unsubscribe_remaining_length(ts: Seq<Seq<char>>) -> nat {
    2 + topic_bytes_length(ts)
}

/// Each topic as its byte length (only the low 8 bits kept) and its bytes.
pub open spec fn topics_bytes(ts: Seq<Seq<char>>) -> Seq<u8>
    decreases ts.len(),
{
    if ts.len() == 0 {
        Seq::empty()
    } else {
        topics_bytes(ts.drop_last()) + seq![(text_bytes(ts.last()).len() % 256) as u8]
            + text_bytes(ts.last())
    }
}

/// The bytes an UNSUBSCRIBE packet is sent as; the remaining length byte is
/// computed from the topics, modulo 256.
pub open spec fn unsubscribe_bytes(m: UnsubscribeModel) -> Seq<u8> {
    seq![
        (m.message_type << 4u8) | m.reserved,
        (unsubscribe_remaining_length(m.topics) % 256) as u8,
        (m.packet_identifier / 256) as u8,
        (m.packet_identifier % 256) as u8,
    ] + topics_bytes(m.topics)
}

/// Reads topics from position `idx` of `b` to its end; `None` where a
/// topic runs past the end of `b` or is not valid UTF-8.
pub open spec fn parse_topics(b: Seq<u8>, idx: int) -> Option<Seq<Seq<char>>>
    decreases b.len() - idx,
{
    if idx < 0 || idx >= b.len() {
        Some(Seq::empty())
    } else {
        let end = idx + 1 + b[idx];
        if end > b.len() || !valid_utf8(b.subrange(idx + 1, end)) {
            None
        } else {
            match parse_topics(b, end) {
                None => None,
                Some(rest) => Some(seq![decode_utf8(b.subrange(idx + 1, end))] + rest),
            }
        }
    }
}

/// What reading an UNSUBSCRIBE packet from `b` gives: `Some(Err)` for fewer
/// than four bytes, `None` where a topic cannot be read.
pub open spec fn parse_unsubscribe(b: Seq<u8>) -> Option<Result<UnsubscribeModel, MqttError>> {
    if b.len() < 4 {
        Some(Err(MqttError::NotEnoughBytes))
    } else {
        match parse_topics(b, 4) {
            None => None,
            Some(ts) => Some(
                Ok(
                    UnsubscribeModel {
                        message_type: b[0] >> 4u8,
                        reserved: b[0] & 0x0Fu8,
                        remaining_length: b[1] as nat,
                        packet_identifier: ((b[2] as u16) << 8u16) | (b[3] as u16),
                        topics: ts,
                    },
                ),
            ),
        }
    }
}

/// Topics read so far followed by the rest.
pub open spec fn prepend_topics(ts: Seq<Seq<char>>, r: Option<Seq<Seq<char>>>) -> Option<
    Seq<Seq<char>>,
> {
    match r {
        None => None,
        Some(rest) => Some(ts + rest),
    }
}

proof fn lemma_topics_length_step(ts: Seq<Seq<char>>, i: int)
    requires
        0 <= i < ts.len(),
    ensures
        topic_bytes_length(ts.subrange(0, i + 1)) == topic_bytes_length(ts.subrange(0, i)) + 1
            + text_bytes(ts[i]).len(),
{
    assert(ts.subrange(0, i + 1).drop_last() =~= ts.subrange(0, i));
}

proof fn lemma_topics_length_prefix(ts: Seq<Seq<char>>, i: int)
    requires
        0 <= i <= ts.len(),
    ensures
        topic_bytes_length(ts.subrange(0, i)) <= topic_bytes_length(ts),
    decreases ts.len() - i,
{
    if i < ts.len() {
        lemma_topics_length_step(ts, i);
        lemma_topics_length_prefix(ts, i + 1);
    } else {
        assert(ts.subrange(0, i) =~= ts);
    }
}

impl UnsubscribeMessage {
    /// An UNSUBSCRIBE of type 10 and flags 2 for `topics`, with its remaining
    /// length computed.
    pub fn new(packet_identifier: u16, topics: Vec<String>) -> (r: UnsubscribeMessage)
        requires
            unsubscribe_remaining_length(topics_view(topics@)) <= usize::MAX,
        ensures
            r@ == (UnsubscribeModel {
                message_type: 10,
                reserved: 2,
                remaining_length: unsubscribe_remaining_length(topics_view(topics@)),
                packet_identifier,
                topics: topics_view(topics@),
            }),
    {
        let variable_header = VariableHeader { packet_identifier };
        let payload = Payload { topics };
        let fixed_header = FixedHeader { message_type: 0b1010, reserved: 0b0010, remaining_length: 0 };
        let mut unsubscribe_message = UnsubscribeMessage { fixed_header, variable_header, payload };
        unsubscribe_message.fixed_header.remaining_length =
            unsubscribe_message.calculate_remaining_length();
        unsubscribe_message
    }

    /// Two bytes of packet identifier plus, per topic, one length byte and
    /// its UTF-8 bytes.
    pub fn calculate_remaining_length(&self) -> (r: usize)
        requires
            unsubscribe_remaining_length(self@.topics) <= usize::MAX,
        ensures
            r == unsubscribe_remaining_length(self@.topics),
    {
        let ghost ts = self@.topics;
        let packet_identifier_length: usize = 2;
        let mut topics_length: usize = 0;
        let mut i: usize = 0;
        while i < self.payload.topics.len()
            invariant
                i <= self.payload.topics@.len(),
                ts == topics_view(self.payload.topics@),
                topics_length == topic_bytes_length(ts.subrange(0, i as int)),
                2 + topic_bytes_length(ts) <= usize::MAX,
            decreases self.payload.topics@.len() - i,
        {
            proof {
                lemma_topics_length_step(ts, i as int);
                lemma_topics_length_prefix(ts, i + 1);
            }
            topics_length = topics_length + 1 + text_len(&self.payload.topics[i]);
            i = i + 1;
        }
        assert(ts.subrange(0, i as int) =~= ts);
        packet_identifier_length + topics_length
    }

    /// The bytes of this packet. Also stores the remaining length computed
    /// from the topics in the fixed header.
    pub fn to_bytes(&mut self) -> (r: Vec<u8>)
        requires
            unsubscribe_remaining_length(old(self)@.topics) <= usize::MAX,
        ensures
            final(self)@ == (UnsubscribeModel {
                remaining_length: unsubscribe_remaining_length(old(self)@.topics),
                ..old(self)@
            }),
            r@ == unsubscribe_bytes(old(self)@),
    {
        let mut bytes: Vec<u8> = Vec::new();
        let combined = (self.fixed_header.message_type << 4) | self.fixed_header.reserved;
        bytes.push(combined);
        self.fixed_header.remaining_length = self.calculate_remaining_length();
        bytes.push((self.fixed_header.remaining_length % 256) as u8);
        bytes.push((self.variable_header.packet_identifier >> 8) as u8);
        bytes.push((self.variable_header.packet_identifier & 0xFF) as u8);
        let p = self.variable_header.packet_identifier;
        assert((p >> 8u16) as u8 == (p / 256) as u8 && (p & 0xFFu16) as u8 == (p % 256) as u8)
            by (bit_vector);
        let ghost head = bytes@;
        let ghost ts = self@.topics;
        let mut i: usize = 0;
        while i < self.payload.topics.len()
            invariant
                i <= self.payload.topics@.len(),
                ts == topics_view(self.payload.topics@),
                bytes@ == head + topics_bytes(ts.subrange(0, i as int)),
            decreases self.payload.topics@.len() - i,
        {
            let topic = &self.payload.topics[i];
            bytes.push((text_len(topic) % 256) as u8);
            push_slice(&mut bytes, string_bytes(topic));
            i = i + 1;
            proof {
                assert(ts.subrange(0, i as int).drop_last() =~= ts.subrange(0, i - 1));
                assert(ts.subrange(0, i as int).last() == ts[i - 1]);
            }
        }
        assert(ts.subrange(0, i as int) =~= ts);
        bytes
    }

    /// Reads an UNSUBSCRIBE packet; refuses fewer than four bytes. Topics are
    /// read, each after its length byte, up to the end of the bytes.
    pub fn from_bytes(bytes: Vec<u8>) -> (r: Result<UnsubscribeMessage, MqttError>)
        requires
            parse_unsubscribe(bytes@) is Some,
        ensures
            match r {
                Ok(m) => parse_unsubscribe(bytes@) == Some(Ok::<UnsubscribeModel, MqttError>(m@)),
                Err(e) => parse_unsubscribe(bytes@) == Some(Err::<UnsubscribeModel, MqttError>(e)),
            },
    {
        if bytes.len() < 4 {
            return Err(MqttError::NotEnoughBytes);
        }
        let ghost b = bytes@;
        let first_byte = bytes[0];
        let message_type = first_byte >> 4;
        let reserved = first_byte & 0x0F;
        let remaining_length = bytes[1];
        let packet_identifier = ((bytes[2] as u16) << 8) | (bytes[3] as u16);
        let mut topics: Vec<String> = Vec::new();
        let mut index: usize = 4;
        while index < bytes.len()
            invariant
                b == bytes@,
                4 <= index,
                parse_topics(b, 4) == prepend_topics(topics_view(topics@), parse_topics(b, index as int)),
                parse_topics(b, index as int) is Some,
            decreases bytes@.len() - index,
        {
            let topic_length = bytes[index] as usize;
            let topic = match decode_text(bytes.as_slice(), index + 1, index + 1 + topic_length) {
                Some(t) => t,
                None => {
                    return Err(MqttError::InvalidUtf8);
                },
            };
            let ghost before = topics_view(topics@);
            topics.push(topic);
            index = index + 1 + topic_length;
            proof {
                assert(topics_view(topics@) =~= before + seq![topic@]);
                match parse_topics(b, index as int) {
                    Some(rest) => {
                        assert(before + (seq![topic@] + rest) =~= (before + seq![topic@]) + rest);
                    },
                    None => {},
                }
            }
        }
        assert(topics_view(topics@) + Seq::<Seq<char>>::empty() =~= topics_view(topics@));
        Ok(
            UnsubscribeMessage {
                fixed_header: FixedHeader {
                    message_type,
                    reserved,
                    remaining_length: remaining_length as usize,
                },
                variable_header: VariableHeader { packet_identifier },
                payload: Payload { topics },
            },
        )
    }
}

/// The bytes of topics laid end to end are those of each part, one after the other.
proof fn lemma_topics_bytes_append(a: Seq<Seq<char>>, c: Seq<Seq<char>>)
    ensures
        topics_bytes(a + c) == topics_bytes(a) + topics_bytes(c),
    decreases c.len(),
{
    if c.len() == 0 {
        assert(a + c =~= a);
        assert(topics_bytes(a) + Seq::<u8>::empty() =~= topics_bytes(a));
    } else {
        lemma_topics_bytes_append(a, c.drop_last());
        assert((a + c).drop_last() =~= a + c.drop_last());
        assert((a + c).last() == c.last());
    }
}

proof fn lemma_parse_topics_of_bytes(prefix: Seq<u8>, ts: Seq<Seq<char>>)
    requires
        forall|i: int| 0 <= i < ts.len() ==> #[trigger] text_bytes(ts[i]).len() < 256,
    ensures
        parse_topics(prefix + topics_bytes(ts), prefix.len() as int) == Some(ts),
    decreases ts.len(),
{
    let b = prefix + topics_bytes(ts);
    let k = prefix.len() as int;
    if ts.len() == 0 {
        assert(b.len() == k);
    } else {
        let t = ts[0];
        let rest = ts.drop_first();
        assert(ts =~= seq![t] + rest);
        lemma_topics_bytes_append(seq![t], rest);
        assert(seq![t].drop_last() =~= Seq::<Seq<char>>::empty());
        let field = seq![(text_bytes(t).len() % 256) as u8] + text_bytes(t);
        assert(seq![t].last() == t);
        assert(topics_bytes(Seq::<Seq<char>>::empty()) =~= Seq::<u8>::empty());
        assert(topics_bytes(seq![t]) == topics_bytes(seq![t].drop_last()) + field);
        assert(topics_bytes(seq![t]) =~= field);
        assert forall|i: int| 0 <= i < rest.len() implies #[trigger] text_bytes(rest[i]).len()
            < 256 by {
            assert(rest[i] == ts[i + 1]);
        }
        lemma_parse_topics_of_bytes(prefix + field, rest);
        assert(b =~= (prefix + field) + topics_bytes(rest));
        assert(text_bytes(ts[0]).len() < 256);
        let n = text_bytes(t).len() as int;
        assert(b[k] == n);
        assert(b.subrange(k + 1, k + 1 + n) =~= text_bytes(t));
        assert((prefix + field).len() == k + 1 + n);
    }
}

/// An UNSUBSCRIBE packet whose type and flags fit in four bits and whose
/// remaining length fits in one byte is read back from its bytes with the
/// same contents and the remaining length computed from its topics.
pub proof fn lemma_unsubscribe_roundtrip(m: UnsubscribeModel)
    requires
        m.message_type < 16,
        m.reserved < 16,
        unsubscribe_remaining_length(m.topics) < 256,
    ensures
        parse_unsubscribe(unsubscribe_bytes(m)) == Some(
            Ok::<UnsubscribeModel, MqttError>(
                UnsubscribeModel { remaining_length: unsubscribe_remaining_length(m.topics), ..m },
            ),
        ),
{
    let ts = m.topics;
    assert forall|i: int| 0 <= i < ts.len() implies #[trigger] text_bytes(ts[i]).len() < 256 by {
        lemma_topics_length_step(ts, i);
        lemma_topics_length_prefix(ts, i + 1);
    }
    let b = unsubscribe_bytes(m);
    let head = seq![
        (m.message_type << 4u8) | m.reserved,
        (unsubscribe_remaining_length(m.topics) % 256) as u8,
        (m.packet_identifier / 256) as u8,
        (m.packet_identifier % 256) as u8,
    ];
    lemma_parse_topics_of_bytes(head, ts);
    let (t, f, p) = (m.message_type, m.reserved, m.packet_identifier);
    assert(t < 16 && f < 16 ==> ((t << 4u8) | f) >> 4u8 == t && ((t << 4u8) | f) & 0x0Fu8 == f)
        by (bit_vector);
    assert((((p / 256) as u8 as u16) << 8u16) | ((p % 256) as u8 as u16) == p) by (bit_vector);
}

} // verus!
