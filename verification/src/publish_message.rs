use vstd::prelude::*;
use vstd::utf8::decode_utf8;
use vstd::utf8::valid_utf8;
use crate::mqtt::messages::publish_message::has_pid_of;
use crate::mqtt::messages::publish_message::payload_start_of;
use crate::mqtt::messages::publish_message::pid_bytes;
use crate::mqtt::messages::publish_message::pid_len;
use crate::mqtt::messages::publish_message::topic_len_of;
use crate::mqtt::messages::publish_payload::Payload;
use crate::mqtt::mqtt_utils::codec::add_mod256;
use crate::mqtt::mqtt_utils::codec::be_u16_bytes;
use crate::mqtt::mqtt_utils::codec::copy_range;
use crate::mqtt::mqtt_utils::codec::copy_string;
use crate::mqtt::mqtt_utils::codec::decode_text;
use crate::mqtt::mqtt_utils::codec::lemma_mod256_add_left;
use crate::mqtt::mqtt_utils::codec::push_slice;
use crate::mqtt::mqtt_utils::codec::push_u16_be;
use crate::mqtt::mqtt_utils::codec::string_bytes;
use crate::mqtt::mqtt_utils::codec::text_bytes;
use crate::mqtt::mqtt_utils::codec::text_len;
use crate::mqtt::mqtt_utils::codec::u16_from_be;
use crate::mqtt::mqtt_utils::codec::u16_from_be_bytes;
use crate::mqtt::mqtt_utils::mqtt_error::MqttError;
use crate::publish_fixed_header::FixedHeader;
use crate::publish_flags::PublishFlags;
use crate::publish_flags::flags_byte;
use crate::publish_variable_header::VariableHeader;

verus! {

broadcast use vstd::utf8::encode_utf8_valid_utf8, vstd::utf8::encode_utf8_decode_utf8;

/// What a PUBLISH packet of the first codec holds: plain payload, no send time.
pub struct PlainPublishModel {
    pub message_type: u8,
    pub flags: PublishFlags,
    pub remaining_length: u8,
    pub topic_name: Seq<char>,
    pub packet_identifier: Option<u16>,
    pub content: Seq<u8>,
}

/// A PUBLISH packet with its payload sent as given.
#[derive(Debug, Clone)]
pub struct PublishMessage {
    pub fixed_header: FixedHeader,
    pub variable_header: VariableHeader,
    pub payload: Payload,
}

impl View for PublishMessage {
    type V = PlainPublishModel;

    open spec fn view(&self) -> PlainPublishModel {
        PlainPublishModel {
            message_type: self.fixed_header.message_type,
            flags: self.fixed_header.flags,
            remaining_length: self.fixed_header.remaining_length,
            topic_name: self.variable_header.topic_name@,
            packet_identifier: self.variable_header.packet_identifier,
            content: self.payload.content@,
        }
    }
}

/// The remaining length that `new` stores: topic length field (2 bytes),
/// topic, packet identifier and payload, modulo 256.
pub open spec fn plain_remaining_length(
    topic_name: Seq<char>,
    packet_identifier: Option<u16>,
    content: Seq<u8>,
) -> u8 {
    ((2 + text_bytes(topic_name).len() + pid_len(packet_identifier) + content.len()) % 256) as u8
}

/// The remaining length that `to_bytes` sends, added up in one byte from the
/// topic and payload lengths modulo 256.
pub open spec fn plain_sent_length(m: PlainPublishModel) -> nat {
    2 + text_bytes(m.topic_name).len() % 256 + pid_len(m.packet_identifier) + m.content.len() % 256
}

/// The first byte: packet type in the high four bits, flags in the low four.
pub open spec fn plain_first_byte(m: PlainPublishModel) -> u8 {
    (m.message_type << 4u8) | (flags_byte(m.flags) & 0x0Fu8)
}

/// The bytes a PUBLISH packet of the first codec is sent as.
pub open spec fn plain_publish_bytes(m: PlainPublishModel) -> Seq<u8> {
    seq![
        plain_first_byte(m),
        plain_sent_length(m) as u8,
        0u8,
        (text_bytes(m.topic_name).len() % 256) as u8,
    ] + text_bytes(m.topic_name) + pid_bytes(m.packet_identifier) + m.content
}

/// The flags held in the four low bits of `b`.
pub open spec fn nibble_flags(b: u8) -> PublishFlags {
    PublishFlags { dup: (b & 0x08u8) >> 3u8, qos: (b & 0x06u8) >> 1u8, retain: b & 0x01u8 }
}

/// What reading a PUBLISH packet of the first codec from `b` gives: `Some(Err)`
/// for fewer than five bytes or a topic that is not valid UTF-8, `None` where
/// a field runs past the end of `b`. A packet identifier is read when the
/// remaining length exceeds the topic length plus 2, taken modulo 256.
pub open spec fn parse_plain_publish(b: Seq<u8>) -> Option<Result<PlainPublishModel, MqttError>> {
    if b.len() < 5 {
        Some(Err(MqttError::NotEnoughBytes))
    } else {
        let tl = topic_len_of(b);
        if 4 + tl > b.len() {
            None
        } else if !valid_utf8(b.subrange(4, 4 + tl)) {
            Some(Err(MqttError::InvalidUtf8))
        } else if has_pid_of(b) && 6 + tl > b.len() {
            None
        } else {
            Some(
                Ok(
                    PlainPublishModel {
                        message_type: b[0] >> 4u8,
                        flags: nibble_flags(b[0]),
                        remaining_length: b[1],
                        topic_name: decode_utf8(b.subrange(4, 4 + tl)),
                        packet_identifier: if has_pid_of(b) {
                            Some(u16_from_be(b[4 + tl], b[5 + tl]))
                        } else {
                            None
                        },
                        content: b.subrange(payload_start_of(b), b.len() as int),
                    },
                ),
            )
        }
    }
}

impl PublishMessage {
    /// Builds a PUBLISH packet with the given type, flags, topic and payload;
    /// refuses a packet identifier when the QoS is 0.
    pub fn new(
        message_type: u8,
        flags: PublishFlags,
        topic_name: &str,
        packet_identifier: Option<u16>,
        content: &[u8],
    ) -> (r: Result<Self, MqttError>)
        ensures
            (flags.qos == 0 && packet_identifier is Some) ==> r == Err::<Self, MqttError>(
                MqttError::PacketIdentifierWithQos0,
            ),
            !(flags.qos == 0 && packet_identifier is Some) ==> (r matches Ok(m) && m@ == (
            PlainPublishModel {
                message_type,
                flags,
                remaining_length: plain_remaining_length(topic_name@, packet_identifier, content@),
                topic_name: topic_name@,
                packet_identifier,
                content: content@,
            })),
    {
        if !flags.is_qos_greater_than_0() && packet_identifier.is_some() {
            return Err(MqttError::PacketIdentifierWithQos0);
        }
        let variable_header = VariableHeader { topic_name: topic_name.to_owned(), packet_identifier };
        let payload = Payload { content: copy_range(content, 0, content.len()) };
        assert(content@.subrange(0, content@.len() as int) =~= content@);
        let fixed_header = FixedHeader { message_type, flags, remaining_length: 0 };
        let mut publish_message = PublishMessage { fixed_header, variable_header, payload };
        publish_message.fixed_header.remaining_length = publish_message.calculate_remaining_length();
        Ok(publish_message)
    }

    /// Topic length field, topic, packet identifier and payload, modulo 256.
    pub fn calculate_remaining_length(&self) -> (r: u8)
        ensures
            r == plain_remaining_length(
                self@.topic_name,
                self@.packet_identifier,
                self@.content,
            ),
    {
        let tl = text_len(&self.variable_header.topic_name);
        let acc = add_mod256(2, tl);
        let pl: usize = match self.variable_header.packet_identifier {
            Some(_) => 2,
            None => 0,
        };
        let acc2 = add_mod256(acc, pl);
        let acc3 = add_mod256(acc2, self.payload.content.len());
        proof {
            lemma_mod256_add_left(2 + tl, pl as int);
            lemma_mod256_add_left(2 + tl + pl, self.payload.content.len() as int);
        }
        acc3
    }

    /// The packet identifier, if any.
    pub fn get_packet_identifier(&self) -> (r: Option<u16>)
        ensures
            r == self.variable_header.packet_identifier,
    {
        self.variable_header.packet_identifier
    }

    /// The bytes of this packet: type and flags, remaining length, topic length
    /// in two bytes (only its low byte kept), topic, packet identifier if any,
    /// payload.
    pub fn to_bytes(&self) -> (r: Vec<u8>)
        requires
            plain_sent_length(self@) <= 255,
        ensures
            r@ == plain_publish_bytes(self@),
    {
        let mut bytes: Vec<u8> = Vec::new();
        let mut first_byte: u8 = self.fixed_header.message_type << 4;
        first_byte = first_byte | (self.fixed_header.flags.to_flags_byte() & 0x0F);
        bytes.push(first_byte);
        let topic_name_length: u8 = (text_len(&self.variable_header.topic_name) % 256) as u8;
        let pid_some: u8 = if self.variable_header.packet_identifier.is_some() {
            1
        } else {
            0
        };
        let content_length: u8 = (self.payload.content.len() % 256) as u8;
        let remaining_length: u8 = 2 + topic_name_length + 2 * pid_some + content_length;
        bytes.push(remaining_length);
        let topic_name_length_msb = (((topic_name_length as u16) >> 8) & 0xFF) as u8;
        assert(((topic_name_length as u16) >> 8u16) & 0xFFu16 == 0) by (bit_vector);
        bytes.push(topic_name_length_msb);
        bytes.push(topic_name_length);
        push_slice(&mut bytes, string_bytes(&self.variable_header.topic_name));
        if let Some(packet_identifier) = self.variable_header.packet_identifier {
            push_u16_be(&mut bytes, packet_identifier);
        }
        push_slice(&mut bytes, self.payload.content.as_slice());
        assert(bytes@ =~= plain_publish_bytes(self@));
        bytes
    }

    /// Reads a PUBLISH packet of the first codec; refuses fewer than five
    /// bytes and a topic that is not valid UTF-8.
    pub fn from_bytes(bytes: Vec<u8>) -> (r: Result<PublishMessage, MqttError>)
        requires
            parse_plain_publish(bytes@) is Some,
        ensures
            match r {
                Ok(m) => parse_plain_publish(bytes@) == Some(Ok::<PlainPublishModel, MqttError>(m@)),
                Err(e) => parse_plain_publish(bytes@) == Some(Err::<PlainPublishModel, MqttError>(e)),
            },
    {
        if bytes.len() < 5 {
            return Err(MqttError::NotEnoughBytes);
        }
        let first_byte = bytes[0];
        let message_type = first_byte >> 4;
        let b0 = first_byte;
        assert(((0x30u8 | (b0 & 0x0Fu8)) & 0xF0u8) >> 4u8 == 3) by (bit_vector);
        assert((0x30u8 | (b0 & 0x0Fu8)) & 0x08u8 == b0 & 0x08u8 && (0x30u8 | (b0 & 0x0Fu8))
            & 0x06u8 == b0 & 0x06u8 && (0x30u8 | (b0 & 0x0Fu8)) & 0x01u8 == b0 & 0x01u8)
            by (bit_vector);
        let flags = match PublishFlags::from_flags_byte(&(0x30 | (first_byte & 0x0F))) {
            Ok(f) => f,
            Err(e) => return Err(e),
        };
        let remaining_length = bytes[1];
        let topic_name_length = u16_from_be_bytes(bytes[2], bytes[3]) as usize;
        let topic_name = match decode_text(bytes.as_slice(), 4, 4 + topic_name_length) {
            Some(t) => t,
            None => return Err(MqttError::InvalidUtf8),
        };
        let mut packet_identifier: Option<u16> = None;
        if remaining_length > ((topic_name_length + 2) % 256) as u8 {
            packet_identifier = Some(
                u16_from_be_bytes(bytes[4 + topic_name_length], bytes[5 + topic_name_length]),
            );
        }
        let payload_start = 4 + topic_name_length + if packet_identifier.is_some() {
            2
        } else {
            0
        };
        let payload_content = copy_range(bytes.as_slice(), payload_start, bytes.len());
        Ok(
            Self {
                fixed_header: FixedHeader { message_type, flags, remaining_length },
                variable_header: VariableHeader { topic_name, packet_identifier },
                payload: Payload { content: payload_content },
            },
        )
    }

    /// The topic name.
    pub fn get_topic(&self) -> (r: String)
        ensures
            r@ == self.variable_header.topic_name@,
    {
        copy_string(&self.variable_header.topic_name)
    }

    /// A copy of the payload.
    pub fn get_payload(&self) -> (r: Vec<u8>)
        ensures
            r@ == self.payload.content@,
    {
        let r = copy_range(self.payload.content.as_slice(), 0, self.payload.content.len());
        assert(self.payload.content@.subrange(0, self.payload.content@.len() as int) =~= self.payload.content@);
        r
    }
}

/// A PUBLISH packet of the first codec is read back unchanged from its bytes
/// when: its type and flags fit in four bits, its topic is under 256 bytes,
/// its sent remaining length fits in one byte and is the one stored, it
/// carries a packet identifier or an empty payload (reading takes any bytes
/// past the topic for a packet identifier), and it is sent in five bytes or
/// more.
pub proof fn lemma_plain_publish_roundtrip(m: PlainPublishModel)
    requires
        m.message_type < 16,
        m.flags.fits_in_byte(),
        text_bytes(m.topic_name).len() < 256,
        plain_sent_length(m) <= 255,
        m.remaining_length == plain_sent_length(m),
        m.packet_identifier is Some || m.content.len() == 0,
        plain_publish_bytes(m).len() >= 5,
    ensures
        parse_plain_publish(plain_publish_bytes(m)) == Some(Ok::<PlainPublishModel, MqttError>(m)),
{
    let b = plain_publish_bytes(m);
    let tb = text_bytes(m.topic_name);
    let tl = tb.len() as int;
    let (t, d, q, r) = (m.message_type, m.flags.dup, m.flags.qos, m.flags.retain);
    assert(t < 16 && d <= 1 && q <= 3 && r <= 1 ==> {
        let x = (t << 4u8) | ((0x30u8 | (d << 3u8) | (q << 1u8) | r) & 0x0Fu8);
        &&& x >> 4u8 == t
        &&& (x & 0x08u8) >> 3u8 == d
        &&& (x & 0x06u8) >> 1u8 == q
        &&& x & 0x01u8 == r
    }) by (bit_vector);
    assert(topic_len_of(b) == tl);
    assert(b.subrange(4, 4 + tl) =~= tb);
    match m.packet_identifier {
        Some(id) => {
            assert(has_pid_of(b));
            assert(b[4 + tl] == be_u16_bytes(id)[0]);
            assert(b[5 + tl] == be_u16_bytes(id)[1]);
            crate::mqtt::mqtt_utils::codec::lemma_u16_roundtrip(id);
        },
        None => {
            assert(!has_pid_of(b));
        },
    }
    assert(b.subrange(payload_start_of(b), b.len() as int) =~= m.content);
}

} // verus!
