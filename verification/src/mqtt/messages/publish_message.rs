use vstd::prelude::*;
use vstd::utf8::valid_utf8;
use vstd::utf8::decode_utf8;
use block_modes::BlockMode;
use crate::mqtt::messages::packet_type::PacketType;
use crate::mqtt::messages::publish_fixed_header::FixedHeader;
use crate::mqtt::messages::publish_payload::Payload;
use crate::mqtt::mqtt_utils::codec::add_mod256;
use crate::mqtt::mqtt_utils::codec::be_bytes;
use crate::mqtt::mqtt_utils::codec::be_u16_bytes;
use crate::mqtt::mqtt_utils::codec::be_value;
use crate::mqtt::mqtt_utils::codec::copy_range;
use crate::mqtt::mqtt_utils::codec::copy_string;
use crate::mqtt::mqtt_utils::codec::decode_text;
use crate::mqtt::mqtt_utils::codec::lemma_be_bytes_len;
use crate::mqtt::mqtt_utils::codec::lemma_be_roundtrip;
use crate::mqtt::mqtt_utils::codec::lemma_mod256_add_left;
use crate::mqtt::mqtt_utils::codec::lemma_pow256_16;
use crate::mqtt::mqtt_utils::codec::push_be_bytes;
use crate::mqtt::mqtt_utils::codec::push_slice;
use crate::mqtt::mqtt_utils::codec::push_u16_be;
use crate::mqtt::mqtt_utils::codec::read_be_u128;
use crate::mqtt::mqtt_utils::codec::string_bytes;
use crate::mqtt::mqtt_utils::codec::text_bytes;
use crate::mqtt::mqtt_utils::codec::text_len;
use crate::mqtt::mqtt_utils::codec::u16_from_be;
use crate::mqtt::mqtt_utils::codec::u16_from_be_bytes;
use crate::mqtt::mqtt_utils::mqtt_error::MqttError;
use crate::publish_flags::PublishFlags;
use crate::publish_flags::flags_byte;
use crate::publish_flags::flags_from_byte;
use crate::publish_flags::lemma_flags_roundtrip;
use crate::publish_variable_header::VariableHeader;

verus! {

broadcast use vstd::utf8::encode_utf8_valid_utf8, vstd::utf8::encode_utf8_decode_utf8;

/// Bytes of the send time that closes every PUBLISH packet.
pub const TIMESTAMP_LENGHT: usize = 16;

/// What a PUBLISH packet holds.
pub struct PublishModel {
    pub flags: PublishFlags,
    pub remaining_length: u8,
    pub topic_name: Seq<char>,
    pub packet_identifier: Option<u16>,
    /// The payload as sent: encrypted.
    pub content: Seq<u8>,
    /// Nanoseconds since the Unix epoch when the message was built.
    pub timestamp: u128,
}

/// A PUBLISH packet whose payload is encrypted with triple DES and which
/// carries the time it was built at its end.
#[derive(Debug, PartialEq)]
pub struct PublishMessage {
    pub fixed_header: FixedHeader,
    pub variable_header: VariableHeader,
    pub payload: Payload,
    pub timestamp: u128,
}

impl View for PublishMessage {
    type V = PublishModel;

    open spec fn view(&self) -> PublishModel {
        PublishModel {
            flags: self.fixed_header.flags,
            remaining_length: self.fixed_header.remaining_length,
            topic_name: self.variable_header.topic_name@,
            packet_identifier: self.variable_header.packet_identifier,
            content: self.payload.content@,
            timestamp: self.timestamp,
        }
    }
}

/// The triple DES key for payloads: 24 bytes of 0x01.
pub open spec fn payload_key() -> Seq<u8> {
    Seq::new(24, |i: int| 1u8)
}

/// The CBC initialization vector for payloads: 8 bytes of 0x02.
pub open spec fn payload_iv() -> Seq<u8> {
    Seq::new(8, |i: int| 2u8)
}

/// The ciphertext that triple DES (EDE, three keys) in CBC mode with PKCS#7
/// padding makes of `data` under `key` and `iv`.
pub uninterp spec fn tdes_cbc_encrypt(key: Seq<u8>, iv: Seq<u8>, data: Seq<u8>) -> Seq<u8>;

/// The plaintext that triple DES in CBC mode with PKCS#7 padding recovers from
/// `data` under `key` and `iv`; `None` when `data` is no such ciphertext.
pub uninterp spec fn tdes_cbc_decrypt(key: Seq<u8>, iv: Seq<u8>, data: Seq<u8>) -> Option<Seq<u8>>;

/// `block_modes::Cbc::<des::TdesEde3, Pkcs7>::new_from_slices(key, iv)` and
/// `encrypt_vec(data)`. Claims: the result is `tdes_cbc_encrypt(key, iv, data)`,
/// and its length is that of `data` padded to the next multiple of 8 (padding
/// always adds 1 to 8 bytes), as `Pkcs7::pad` in block-padding shows. The key
/// and IV lengths are the only ones `new_from_slices` accepts.
#[verifier::external_body]
fn tdes_cbc_encrypt_vec(key: &[u8], iv: &[u8], data: &[u8]) -> (r: Vec<u8>)
    requires
        key@.len() == 24,
        iv@.len() == 8,
    ensures
        r@ == tdes_cbc_encrypt(key@, iv@, data@),
        r@.len() == 8 * (data@.len() / 8) + 8,
{
    block_modes::Cbc::<des::TdesEde3, block_modes::block_padding::Pkcs7>::new_from_slices(
        key,
        iv,
    ).unwrap().encrypt_vec(data)
}

/// `block_modes::Cbc::<des::TdesEde3, Pkcs7>::new_from_slices(key, iv)` and
/// `decrypt_vec(data)`, with its error turned into `None`. Claims: the result
/// is `tdes_cbc_decrypt(key, iv, data)`, and a ciphertext made by encryption
/// under the same key and IV decrypts to its plaintext (the crate's own usage
/// example). Which inputs other than ciphertexts are refused is left unsaid.
#[verifier::external_body]
fn tdes_cbc_decrypt_vec(key: &[u8], iv: &[u8], data: &[u8]) -> (r: Option<Vec<u8>>)
    requires
        key@.len() == 24,
        iv@.len() == 8,
    ensures
        match r {
            Some(v) => {
                &&& tdes_cbc_decrypt(key@, iv@, data@) == Some(v@)
                &&& forall|p: Seq<u8>| #[trigger] tdes_cbc_encrypt(key@, iv@, p) == data@ ==> v@ == p
            },
            None => {
                &&& tdes_cbc_decrypt(key@, iv@, data@) is None
                &&& forall|p: Seq<u8>| #[trigger] tdes_cbc_encrypt(key@, iv@, p) != data@
            },
        },
{
    match block_modes::Cbc::<des::TdesEde3, block_modes::block_padding::Pkcs7>::new_from_slices(
        key,
        iv,
    ).unwrap().decrypt_vec(data) {
        Ok(v) => Some(v),
        Err(_) => None,
    }
}

/// `std::time::SystemTime::now()` as nanoseconds since the Unix epoch; `None`
/// when the clock reads a time before the epoch. Nothing is claimed of the value.
#[verifier::external_body]
fn unix_time_nanos() -> (r: Option<u128>) {
    match std::time::SystemTime::now().duration_since(std::time::UNIX_EPOCH) {
        Ok(d) => Some(d.as_nanos()),
        Err(_) => None,
    }
}

fn payload_key_bytes() -> (k: Vec<u8>)
    ensures
        k@ == payload_key(),
{
    let k = vec![0x01u8; 24];
    assert(k@ =~= payload_key());
    k
}

fn payload_iv_bytes() -> (k: Vec<u8>)
    ensures
        k@ == payload_iv(),
{
    let k = vec![0x02u8; 8];
    assert(k@ =~= payload_iv());
    k
}

/// Encrypts a payload with the library's key and IV.
pub fn encrypt_3des(data: &[u8]) -> (r: Vec<u8>)
    ensures
        r@ == tdes_cbc_encrypt(payload_key(), payload_iv(), data@),
        r@.len() == 8 * (data@.len() / 8) + 8,
{
    let key = payload_key_bytes();
    let iv = payload_iv_bytes();
    tdes_cbc_encrypt_vec(key.as_slice(), iv.as_slice(), data)
}

/// Decrypts a payload encrypted with the library's key and IV.
pub fn decrypt_3des(encrypted_data: &[u8]) -> (r: Vec<u8>)
    requires
        tdes_cbc_decrypt(payload_key(), payload_iv(), encrypted_data@) is Some,
    ensures
        tdes_cbc_decrypt(payload_key(), payload_iv(), encrypted_data@) == Some(r@),
        forall|p: Seq<u8>|
            #[trigger] tdes_cbc_encrypt(payload_key(), payload_iv(), p) == encrypted_data@ ==> r@
                == p,
{
    let key = payload_key_bytes();
    let iv = payload_iv_bytes();
    match tdes_cbc_decrypt_vec(key.as_slice(), iv.as_slice(), encrypted_data) {
        Some(v) => v,
        None => {
            proof {
                assert(false);
            }
            Vec::new()
        },
    }
}

/// Decrypts `encrypted_data` if it is a ciphertext under the library's key and IV.
pub fn try_decrypt_3des(encrypted_data: &[u8]) -> (r: Option<Vec<u8>>)
    ensures
        match r {
            Some(v) => tdes_cbc_decrypt(payload_key(), payload_iv(), encrypted_data@) == Some(v@),
            None => tdes_cbc_decrypt(payload_key(), payload_iv(), encrypted_data@) is None,
        },
        forall|p: Seq<u8>|
            #[trigger] tdes_cbc_encrypt(payload_key(), payload_iv(), p) == encrypted_data@ ==> (r matches Some(v)
                && v@ == p),
{
    let key = payload_key_bytes();
    let iv = payload_iv_bytes();
    tdes_cbc_decrypt_vec(key.as_slice(), iv.as_slice(), encrypted_data)
}

/// Bytes taken by a packet identifier.
pub open spec fn pid_len(p: Option<u16>) -> nat {
    if p is Some {
        2
    } else {
        0
    }
}

/// The bytes of a packet identifier, if any.
pub open spec fn pid_bytes(p: Option<u16>) -> Seq<u8> {
    match p {
        Some(id) => be_u16_bytes(id),
        None => Seq::empty(),
    }
}

/// The remaining length of a PUBLISH packet modulo 256: topic length (2
/// bytes), topic, packet identifier, payload and send time.
pub open spec fn publish_remaining_length(m: PublishModel) -> u8 {
    ((2 + text_bytes(m.topic_name).len() + pid_len(m.packet_identifier) + m.content.len() + 16)
        % 256) as u8
}

/// The remaining length that `to_bytes` sends, computed in one byte from the
/// topic and payload lengths modulo 256.
pub open spec fn publish_sent_length(m: PublishModel) -> nat {
    2 + text_bytes(m.topic_name).len() % 256 + pid_len(m.packet_identifier) + m.content.len() % 256
        + 16
}

/// The sent remaining length fits in one byte: `to_bytes` can run.
pub open spec fn publish_fits(m: PublishModel) -> bool {
    publish_sent_length(m) <= 255
}

/// The bytes that a PUBLISH packet is sent as.
pub open spec fn publish_bytes(m: PublishModel) -> Seq<u8> {
    seq![
        flags_byte(m.flags),
        publish_sent_length(m) as u8,
        0u8,
        (text_bytes(m.topic_name).len() % 256) as u8,
    ] + text_bytes(m.topic_name) + pid_bytes(m.packet_identifier) + m.content + be_bytes(
        m.timestamp as nat,
        16,
    )
}

/// The topic length that bytes 2 and 3 of `b` announce.
pub open spec fn topic_len_of(b: Seq<u8>) -> int {
    b[2] * 256 + b[3]
}

/// Whether reading `b` finds a packet identifier: when the remaining length is
/// larger than the topic length plus 2, taken modulo 256.
pub open spec fn has_pid_of(b: Seq<u8>) -> bool {
    b[1] > (topic_len_of(b) + 2) % 256
}

/// Where the payload starts in `b`.
pub open spec fn payload_start_of(b: Seq<u8>) -> int {
    4 + topic_len_of(b) + if has_pid_of(b) {
        2int
    } else {
        0int
    }
}

/// The inputs on which reading a PUBLISH packet completes, with a packet or
/// an error: too short, a wrong packet type, an invalid topic, or every field
/// within the bytes given and at least 16 bytes for the send time.
pub open spec fn publish_parse_defined(b: Seq<u8>) -> bool {
    b.len() < 13 || flags_from_byte(b[0]) is Err || {
        &&& 4 + topic_len_of(b) <= b.len()
        &&& (valid_utf8(b.subrange(4, 4 + topic_len_of(b))) ==> {
            &&& b.len() >= 16
            &&& (has_pid_of(b) ==> 6 + topic_len_of(b) <= b.len())
            &&& payload_start_of(b) <= b.len() - 16
        })
    }
}

/// What reading a PUBLISH packet from `b` gives, on inputs where it completes.
pub open spec fn parse_publish(b: Seq<u8>) -> Result<PublishModel, MqttError> {
    if b.len() < 13 {
        Err(MqttError::NotEnoughBytes)
    } else {
        match flags_from_byte(b[0]) {
            Err(e) => Err(e),
            Ok(flags) => {
                let tl = topic_len_of(b);
                let tb = b.subrange(4, 4 + tl);
                if !valid_utf8(tb) {
                    Err(MqttError::InvalidUtf8)
                } else {
                    let pid = if has_pid_of(b) {
                        Some(u16_from_be(b[4 + tl], b[5 + tl]))
                    } else {
                        None
                    };
                    Ok(
                        PublishModel {
                            flags: flags,
                            remaining_length: b[1],
                            topic_name: decode_utf8(tb),
                            packet_identifier: pid,
                            content: b.subrange(payload_start_of(b), b.len() - 16),
                            timestamp: be_value(b.subrange(b.len() - 16, b.len() as int)) as u128,
                        },
                    )
                }
            },
        }
    }
}

/// A PUBLISH packet that is read back unchanged from its bytes: flags that fit
/// their bits, a packet identifier (reading always finds one, as the send time
/// makes the remaining length exceed the topic length plus 2), a topic of at
/// most 255 bytes, a remaining length that fits in one byte and is the one stored.
pub open spec fn publish_model_wf(m: PublishModel) -> bool {
    &&& m.flags.fits_in_byte()
    &&& m.packet_identifier is Some
    &&& text_bytes(m.topic_name).len() <= 255
    &&& publish_fits(m)
    &&& m.remaining_length == publish_remaining_length(m)
}

impl PublishMessage {
    /// Builds a PUBLISH packet stamped with the current time, its payload
    /// encrypted; refuses a packet identifier when the QoS is 0, and a clock
    /// before the Unix epoch.
    pub fn new(flags: PublishFlags, topic_name: &str, packet_identifier: Option<u16>, content: &[u8]) -> (r:
        Result<Self, MqttError>)
        ensures
            (!(flags.qos > 0) && packet_identifier is Some) ==> r == Err::<Self, MqttError>(
                MqttError::PacketIdentifierWithQos0,
            ),
            !(!(flags.qos > 0) && packet_identifier is Some) ==> (r is Ok || r == Err::<
                Self,
                MqttError,
            >(MqttError::ClockBeforeUnixEpoch)),
            r matches Ok(m) ==> publish_built(m@, flags, topic_name@, packet_identifier, content@),
            r matches Ok(m) ==> m@.content.len() == 8 * (content@.len() / 8) + 8,
    {
        if !flags.is_qos_greater_than_0() && packet_identifier.is_some() {
            return Err(MqttError::PacketIdentifierWithQos0);
        }
        let timestamp = match unix_time_nanos() {
            Some(t) => t,
            None => return Err(MqttError::ClockBeforeUnixEpoch),
        };
        Self::new_with_timestamp(flags, topic_name, packet_identifier, content, timestamp)
    }

    /// Builds a PUBLISH packet stamped with `timestamp`, its payload
    /// encrypted; refuses a packet identifier when the QoS is 0.
    pub fn new_with_timestamp(
        flags: PublishFlags,
        topic_name: &str,
        packet_identifier: Option<u16>,
        content: &[u8],
        timestamp: u128,
    ) -> (r: Result<Self, MqttError>)
        ensures
            (!(flags.qos > 0) && packet_identifier is Some) ==> r == Err::<Self, MqttError>(
                MqttError::PacketIdentifierWithQos0,
            ),
            !(!(flags.qos > 0) && packet_identifier is Some) ==> (r matches Ok(m) && publish_built(
                m@,
                flags,
                topic_name@,
                packet_identifier,
                content@,
            ) && m.timestamp == timestamp && m@.content.len() == 8 * (content@.len() / 8) + 8),
    {
        if !flags.is_qos_greater_than_0() && packet_identifier.is_some() {
            return Err(MqttError::PacketIdentifierWithQos0);
        }
        let variable_header = VariableHeader { topic_name: topic_name.to_owned(), packet_identifier };
        let content = encrypt_3des(content);
        let payload = Payload { content };
        let fixed_header = FixedHeader { flags, remaining_length: 0 };
        let mut publish_message = PublishMessage { fixed_header, variable_header, payload, timestamp };
        publish_message.fixed_header.remaining_length = publish_message.calculate_remaining_length_2();
        Ok(publish_message)
    }

    /// The remaining length of this packet modulo 256.
    pub fn calculate_remaining_length_2(&self) -> (r: u8)
        ensures
            r == publish_remaining_length(self@),
    {
        let tl = text_len(&self.variable_header.topic_name);
        let acc = add_mod256(2, tl);
        let pl: usize = if self.variable_header.packet_identifier.is_some() {
            2
        } else {
            0
        };
        let acc2 = add_mod256(acc, pl);
        let acc3 = add_mod256(acc2, self.payload.content.len());
        let acc4 = add_mod256(acc3, TIMESTAMP_LENGHT);
        proof {
            let a = 2 + tl;
            lemma_mod256_add_left(a, pl as int);
            lemma_mod256_add_left(a + pl, self.payload.content.len() as int);
            lemma_mod256_add_left(a + pl + self.payload.content.len(), 16);
        }
        acc4
    }

    /// The packet identifier, if any.
    pub fn get_packet_id(&self) -> (r: Option<u16>)
        ensures
            r == self.variable_header.packet_identifier,
    {
        self.variable_header.packet_identifier
    }

    /// The bytes of this packet: flags, remaining length, topic length in two
    /// bytes, topic, packet identifier if any, payload, and the send time in
    /// 16 bytes, most significant first.
    pub fn to_bytes(&self) -> (r: Vec<u8>)
        requires
            publish_fits(self@),
        ensures
            r@ == publish_bytes(self@),
    {
        let mut bytes: Vec<u8> = Vec::new();
        let first_byte = self.fixed_header.flags.to_flags_byte();
        bytes.push(first_byte);
        let topic_name_length: u8 = (text_len(&self.variable_header.topic_name) % 256) as u8;
        let pid_some: u8 = if self.variable_header.packet_identifier.is_some() {
            1
        } else {
            0
        };
        let content_length: u8 = (self.payload.content.len() % 256) as u8;
        let remaining_length: u8 = 2 + topic_name_length + 2 * pid_some + content_length
            + TIMESTAMP_LENGHT as u8;
        bytes.push(remaining_length);
        let topic_name_length_msb = (((topic_name_length as u16) >> 8) & 0xFF) as u8;
        assert(((topic_name_length as u16) >> 8u16) & 0xFFu16 == 0) by (bit_vector);
        bytes.push(topic_name_length_msb);
        bytes.push(topic_name_length);
        push_slice(&mut bytes, string_bytes(&self.variable_header.topic_name));
        if let Some(packet_identifier) = self.variable_header.packet_identifier {
            push_u16_be(&mut bytes, packet_identifier);
        }
        push_slice(&mut bytes, self.payload.content.as_slice());
        push_be_bytes(&mut bytes, self.timestamp, TIMESTAMP_LENGHT);
        assert(bytes@ =~= publish_bytes(self@));
        bytes
    }

    /// Whether the remaining length of this packet fits in one byte, so that
    /// `to_bytes` can build it.
    pub fn fits(&self) -> (r: bool)
        ensures
            r == publish_fits(self@),
    {
        let tl = text_len(&self.variable_header.topic_name) % 256;
        let pl = self.payload.content.len() % 256;
        let pid: usize = if self.variable_header.packet_identifier.is_some() {
            2
        } else {
            0
        };
        2 + tl + pid + pl + TIMESTAMP_LENGHT <= 255
    }

    /// Whether `from_bytes` completes on `bytes`.
    pub fn can_parse(bytes: &Vec<u8>) -> (r: bool)
        ensures
            r == publish_parse_defined(bytes@),
    {
        if bytes.len() < 13 {
            return true;
        }
        if PublishFlags::from_flags_byte(&bytes[0]).is_err() {
            return true;
        }
        let tl = u16_from_be_bytes(bytes[2], bytes[3]) as usize;
        if tl > bytes.len() - 4 {
            return false;
        }
        if decode_text(bytes.as_slice(), 4, 4 + tl).is_none() {
            return true;
        }
        if bytes.len() < 16 {
            return false;
        }
        let has_pid = bytes[1] > ((tl + 2) % 256) as u8;
        if has_pid && tl + 6 > bytes.len() {
            return false;
        }
        let start = 4 + tl + if has_pid {
            2
        } else {
            0
        };
        start <= bytes.len() - 16
    }

    /// Reads a PUBLISH packet; refuses fewer than 13 bytes, a first byte whose
    /// packet type is not 3, and a topic that is not valid UTF-8.
    pub fn from_bytes(bytes: Vec<u8>) -> (r: Result<PublishMessage, MqttError>)
        requires
            publish_parse_defined(bytes@),
        ensures
            match r {
                Ok(m) => parse_publish(bytes@) == Ok::<PublishModel, MqttError>(m@),
                Err(e) => parse_publish(bytes@) == Err::<PublishModel, MqttError>(e),
            },
    {
        if bytes.len() < 13 {
            return Err(MqttError::NotEnoughBytes);
        }
        let first_byte = bytes[0];
        let flags = match PublishFlags::from_flags_byte(&first_byte) {
            Ok(f) => f,
            Err(e) => return Err(e),
        };
        let remaining_length = bytes[1];
        let topic_name_length = u16_from_be_bytes(bytes[2], bytes[3]) as usize;
        let topic_name = match decode_text(bytes.as_slice(), 4, 4 + topic_name_length) {
            Some(t) => t,
            None => return Err(MqttError::InvalidUtf8),
        };
        let mut packet_identifier: Option<u16> = None;
        if remaining_length > ((topic_name_length + 2) % 256) as u8 {
            packet_identifier = Some(
                u16_from_be_bytes(bytes[4 + topic_name_length], bytes[5 + topic_name_length]),
            );
        }
        let payload_start = 4 + topic_name_length + if packet_identifier.is_some() {
            2
        } else {
            0
        };
        let payload_end = bytes.len() - TIMESTAMP_LENGHT;
        let payload_content = copy_range(bytes.as_slice(), payload_start, payload_end);
        let timestamp = read_be_u128(bytes.as_slice(), payload_end, TIMESTAMP_LENGHT);
        Ok(
            Self {
                fixed_header: FixedHeader { flags, remaining_length },
                variable_header: VariableHeader { topic_name, packet_identifier },
                payload: Payload { content: payload_content },
                timestamp,
            },
        )
    }

    /// The topic name.
    pub fn get_topic(&self) -> (r: String)
        ensures
            r@ == self.variable_header.topic_name@,
    {
        copy_string(&self.variable_header.topic_name)
    }

    /// The decrypted payload.
    pub fn get_payload(&self) -> (r: Vec<u8>)
        requires
            tdes_cbc_decrypt(payload_key(), payload_iv(), self.payload.content@) is Some,
        ensures
            tdes_cbc_decrypt(payload_key(), payload_iv(), self.payload.content@) == Some(r@),
            forall|p: Seq<u8>|
                #[trigger] tdes_cbc_encrypt(payload_key(), payload_iv(), p) == self.payload.content@ ==> r@ == p,
    {
        decrypt_3des(self.payload.content.as_slice())
    }

    /// The decrypted payload, if the payload decrypts.
    pub fn try_get_payload(&self) -> (r: Option<Vec<u8>>)
        ensures
            match r {
                Some(v) => tdes_cbc_decrypt(payload_key(), payload_iv(), self.payload.content@)
                    == Some(v@),
                None => tdes_cbc_decrypt(payload_key(), payload_iv(), self.payload.content@) is None,
            },
            forall|p: Seq<u8>|
                #[trigger] tdes_cbc_encrypt(payload_key(), payload_iv(), p) == self.payload.content@ ==> (r matches Some(v)
                    && v@ == p),
    {
        if try_decrypt_3des(self.payload.content.as_slice()).is_some() {
            Some(self.get_payload())
        } else {
            None
        }
    }

    /// The quality of service level.
    pub fn get_qos(&self) -> (r: u8)
        ensures
            r == self.fixed_header.flags.qos,
    {
        self.fixed_header.flags.get_qos()
    }

    /// The topic name.
    pub fn get_topic_name(&self) -> (r: String)
        ensures
            r@ == self.variable_header.topic_name@,
    {
        copy_string(&self.variable_header.topic_name)
    }

    /// Nanoseconds since the Unix epoch when the message was built.
    pub fn get_timestamp(&self) -> (r: u128)
        ensures
            r == self.timestamp,
    {
        self.timestamp
    }

    /// The packet type: always publish.
    pub fn get_type(&self) -> (r: PacketType)
        ensures
            r == PacketType::Publish,
    {
        PacketType::Publish
    }
}

/// `m` is the packet built from these arguments: the payload encrypted, the
/// remaining length computed.
pub open spec fn publish_built(
    m: PublishModel,
    flags: PublishFlags,
    topic_name: Seq<char>,
    packet_identifier: Option<u16>,
    content: Seq<u8>,
) -> bool {
    &&& m.flags == flags
    &&& m.topic_name == topic_name
    &&& m.packet_identifier == packet_identifier
    &&& m.content == tdes_cbc_encrypt(payload_key(), payload_iv(), content)
    &&& m.remaining_length == publish_remaining_length(m)
}

/// A PUBLISH packet is read back unchanged from the bytes it is sent as.
pub proof fn lemma_publish_roundtrip(m: PublishModel)
    requires
        publish_model_wf(m),
    ensures
        publish_parse_defined(publish_bytes(m)),
        parse_publish(publish_bytes(m)) == Ok::<PublishModel, MqttError>(m),
{
    let b = publish_bytes(m);
    let tb = text_bytes(m.topic_name);
    let tl = tb.len() as int;
    let id = m.packet_identifier->0;
    lemma_be_bytes_len(m.timestamp as nat, 16);
    lemma_flags_roundtrip(m.flags);
    assert(topic_len_of(b) == tl);
    assert(b.subrange(4, 4 + tl) =~= tb);
    assert(has_pid_of(b));
    assert(b[4 + tl] == be_u16_bytes(id)[0]);
    assert(b[5 + tl] == be_u16_bytes(id)[1]);
    assert(b.subrange(payload_start_of(b), b.len() - 16) =~= m.content);
    assert(b.subrange(b.len() - 16, b.len() as int) =~= be_bytes(m.timestamp as nat, 16));
    lemma_pow256_16();
    lemma_be_roundtrip(m.timestamp as nat, 16);
    assert(publish_sent_length(m) % 256 == publish_remaining_length(m)) by {
        lemma_mod256_add_left(2 + tl, (pid_len(m.packet_identifier) + m.content.len() + 16) as int);
        lemma_mod256_add_left(2 + tl % 256 + pid_len(m.packet_identifier), (m.content.len() + 16) as int);
        lemma_mod256_add_left(m.content.len() as int, 2 + tl % 256 + pid_len(m.packet_identifier) + 16);
    }
}

} // verus!
