use vstd::prelude::*;
use vstd::utf8::valid_utf8;
use vstd::utf8::decode_utf8;
use crate::mqtt::messages::connect_fixed_header::FixedHeader;
use crate::mqtt::messages::connect_flags::ConnectFlags;
use crate::mqtt::messages::connect_flags::connect_flags_byte;
use crate::mqtt::messages::connect_flags::connect_flags_from_byte;
use crate::mqtt::messages::connect_flags::lemma_connect_flags_roundtrip;
use crate::mqtt::messages::connect_payload::Payload;
use crate::mqtt::messages::connect_variable_header::VariableHeader;
use crate::mqtt::mqtt_utils::codec::add_mod256;
use crate::mqtt::mqtt_utils::codec::copy_range;
use crate::mqtt::mqtt_utils::codec::lemma_mod256_add_left;
use crate::mqtt::mqtt_utils::codec::copy_string;
use crate::mqtt::mqtt_utils::codec::decode_text;
use crate::mqtt::mqtt_utils::codec::opt_text;
use crate::mqtt::mqtt_utils::codec::push_slice;
use crate::mqtt::mqtt_utils::codec::string_bytes;
use crate::mqtt::mqtt_utils::codec::text_bytes;
use crate::mqtt::mqtt_utils::codec::text_len;
use crate::mqtt::mqtt_utils::will_message_utils::will_message::WillMessageAndTopic;
use crate::mqtt::mqtt_utils::will_message_utils::will_message::will_view;

verus! {

broadcast use vstd::utf8::encode_utf8_valid_utf8, vstd::utf8::encode_utf8_decode_utf8;

/// What a CONNECT packet holds, with its texts as character sequences.
pub struct ConnectModel {
    pub message_type: u8,
    pub remaining_length: u8,
    pub protocol_name: Seq<u8>,
    pub protocol_level: u8,
    pub flags: ConnectFlags,
    pub client_id: Seq<char>,
    pub will_topic: Option<Seq<char>>,
    pub will_message: Option<Seq<char>>,
    pub username: Option<Seq<char>>,
    pub password: Option<Seq<char>>,
}

/// A CONNECT packet: the first packet that a client sends to the server.
#[derive(Debug)]
pub struct ConnectMessage {
    pub fixed_header: FixedHeader,
    pub variable_header: VariableHeader,
    pub payload: Payload,
}

impl View for ConnectMessage {
    type V = ConnectModel;

    open spec fn view(&self) -> ConnectModel {
        ConnectModel {
            message_type: self.fixed_header.message_type,
            remaining_length: self.fixed_header.remaining_length,
            protocol_name: self.variable_header.protocol_name@,
            protocol_level: self.variable_header.protocol_level,
            flags: self.variable_header.connect_flags,
            client_id: self.payload.client_id@,
            will_topic: opt_text(self.payload.will_topic),
            will_message: opt_text(self.payload.will_message),
            username: opt_text(self.payload.username),
            password: opt_text(self.payload.password),
        }
    }
}

/// A text field: its byte length in one byte (only the low 8 bits of the
/// length are kept), then its UTF-8 bytes.
pub open spec fn field_bytes(s: Seq<char>) -> Seq<u8> {
    seq![(text_bytes(s).len() % 256) as u8] + text_bytes(s)
}

/// An optional text field: nothing when absent.
pub open spec fn opt_field_bytes(o: Option<Seq<char>>) -> Seq<u8> {
    match o {
        Some(s) => field_bytes(s),
        None => Seq::empty(),
    }
}

/// The payload bytes of a CONNECT packet.
pub open spec fn connect_payload_bytes(m: ConnectModel) -> Seq<u8> {
    field_bytes(m.client_id) + opt_field_bytes(m.will_topic) + opt_field_bytes(m.will_message)
        + opt_field_bytes(m.username) + opt_field_bytes(m.password)
}

/// The remaining length of a CONNECT packet: seven bytes of variable header
/// plus the payload, modulo 256.
pub open spec fn connect_remaining_length(m: ConnectModel) -> u8 {
    ((7 + connect_payload_bytes(m).len()) % 256) as u8
}

/// The bytes that a CONNECT packet is sent as.
pub open spec fn connect_bytes(m: ConnectModel) -> Seq<u8> {
    seq![m.message_type, connect_remaining_length(m), 4u8] + m.protocol_name + seq![
        m.protocol_level,
        connect_flags_byte(m.flags),
    ] + connect_payload_bytes(m)
}

/// Reads the text field that starts at `pos` of `p`; `None` when it runs past
/// the end of `p` or is not valid UTF-8.
pub open spec fn read_field(p: Seq<u8>, pos: int) -> Option<(Seq<char>, int)> {
    if 0 <= pos < p.len() && pos + 1 + p[pos] <= p.len() && valid_utf8(
        p.subrange(pos + 1, pos + 1 + p[pos]),
    ) {
        Some((decode_utf8(p.subrange(pos + 1, pos + 1 + p[pos])), pos + 1 + p[pos]))
    } else {
        None
    }
}

/// Reads a text field at `pos` when `present`, and nothing otherwise.
pub open spec fn read_opt_field(p: Seq<u8>, pos: int, present: bool) -> Option<
    (Option<Seq<char>>, int),
> {
    if !present {
        Some((None, pos))
    } else {
        match read_field(p, pos) {
            Some((t, n)) => Some((Some(t), n)),
            None => None,
        }
    }
}

/// The texts of a CONNECT payload `p` read as `f` announces them: client id,
/// will topic, will message, user name, password.
pub open spec fn parse_connect_payload(f: ConnectFlags, p: Seq<u8>) -> Option<
    (Seq<char>, Option<Seq<char>>, Option<Seq<char>>, Option<Seq<char>>, Option<Seq<char>>),
> {
    match read_field(p, 0) {
        None => None,
        Some((cid, i1)) => match read_opt_field(p, i1, f.will_flag) {
            None => None,
            Some((wt, i2)) => match read_opt_field(p, i2, f.will_flag) {
                None => None,
                Some((wm, i3)) => match read_opt_field(p, i3, f.username_flag) {
                    None => None,
                    Some((u, i4)) => match read_opt_field(p, i4, f.password_flag) {
                        None => None,
                        Some((pw, _)) => Some((cid, wt, wm, u, pw)),
                    },
                },
            },
        },
    }
}

/// What reading a CONNECT packet from `b` gives; `None` for the inputs on
/// which reading cannot complete: fewer than 9 bytes, a remaining length below
/// 7 or beyond the bytes given, or a payload field that runs past the payload
/// or is not valid UTF-8.
pub open spec fn parse_connect(b: Seq<u8>) -> Option<ConnectModel> {
    if b.len() < 9 || b[1] < 7 || 9 + (b[1] - 7) > b.len() {
        None
    } else {
        let flags = connect_flags_from_byte(b[8]);
        match parse_connect_payload(flags, b.subrange(9, 9 + (b[1] - 7))) {
            None => None,
            Some((cid, wt, wm, u, pw)) => Some(
                ConnectModel {
                    message_type: b[0],
                    remaining_length: b[1],
                    protocol_name: b.subrange(3, 7),
                    protocol_level: b[7],
                    flags: flags,
                    client_id: cid,
                    will_topic: wt,
                    will_message: wm,
                    username: u,
                    password: pw,
                },
            ),
        }
    }
}

/// A CONNECT packet that is read back unchanged from its bytes: the flags
/// announce exactly the fields present, the will QoS fits in two bits, each
/// text is at most 255 bytes and the remaining length fits in one byte.
pub open spec fn connect_model_wf(m: ConnectModel) -> bool {
    &&& m.protocol_name.len() == 4
    &&& m.flags.will_qos < 4
    &&& m.flags.will_flag == (m.will_topic is Some)
    &&& m.flags.will_flag == (m.will_message is Some)
    &&& m.flags.username_flag == (m.username is Some)
    &&& m.flags.password_flag == (m.password is Some)
    &&& 7 + connect_payload_bytes(m).len() <= 255
}

/// The texts of a CONNECT packet sent by a client and the flags it builds for them.
pub open spec fn connect_flags_for(
    will_topic: Option<String>,
    will_message: Option<String>,
    username: Option<String>,
    password: Option<String>,
    will_qos: u8,
) -> ConnectFlags {
    ConnectFlags {
        username_flag: username is Some,
        password_flag: password is Some,
        will_retain: true,
        will_qos: will_qos,
        will_flag: will_topic is Some && will_message is Some,
        clean_session: true,
        reserved: false,
    }
}

/// Appends `s` as a text field.
fn push_field(out: &mut Vec<u8>, s: &String)
    ensures
        final(out)@ == old(out)@ + field_bytes(s@),
{
    let n = text_len(s);
    out.push((n % 256) as u8);
    push_slice(out, string_bytes(s));
    assert(final(out)@ =~= old(out)@ + field_bytes(s@));
}

/// Appends `o` as an optional text field.
fn push_opt_field(out: &mut Vec<u8>, o: &Option<String>)
    ensures
        final(out)@ == old(out)@ + opt_field_bytes(opt_text(*o)),
{
    match o {
        Some(s) => push_field(out, s),
        None => {
            assert(old(out)@ + opt_field_bytes(opt_text(*o)) =~= old(out)@);
        },
    }
}

/// `acc` plus the length of the optional field `o`, modulo 256.
fn add_opt_field_len(acc: u8, o: &Option<String>) -> (r: u8)
    ensures
        r == (acc + opt_field_bytes(opt_text(*o)).len()) % 256,
{
    match o {
        Some(s) => {
            let n = text_len(s);
            let a = add_mod256(acc, n);
            let r = add_mod256(a, 1);
            proof {
                lemma_mod256_add_left(acc + n, 1);
            }
            r
        },
        None => acc,
    }
}

/// Reads the text field at `pos` of `p`.
fn read_field_exec(p: &[u8], pos: usize) -> (r: Option<(String, usize)>)
    ensures
        match read_field(p@, pos as int) {
            Some((t, n)) => r matches Some((s, m)) && s@ == t && m == n,
            None => r is None,
        },
{
    if pos >= p.len() {
        return None;
    }
    let l = p[pos] as usize;
    if l > p.len() - pos - 1 {
        return None;
    }
    let end = pos + 1 + l;
    match decode_text(p, pos + 1, end) {
        Some(s) => Some((s, end)),
        None => None,
    }
}

/// Reads the optional text field at `pos` of `p` when `present`.
fn read_opt_field_exec(p: &[u8], pos: usize, present: bool) -> (r: Option<(Option<String>, usize)>)
    ensures
        match read_opt_field(p@, pos as int, present) {
            Some((t, n)) => r matches Some((s, m)) && opt_text(s) == t && m == n,
            None => r is None,
        },
{
    if !present {
        return Some((None, pos));
    }
    match read_field_exec(p, pos) {
        Some((s, n)) => Some((Some(s), n)),
        None => None,
    }
}

impl ConnectMessage {
    /// Builds the CONNECT packet that a client sends: packet type 1, protocol
    /// "MQTT" level 4, will retain and clean session set, and the flags that
    /// announce the fields given (the will flag only when both will topic and
    /// will message are given).
    pub fn new(
        client_id: String,
        will_topic: Option<String>,
        will_message: Option<String>,
        username: Option<String>,
        password: Option<String>,
        will_qos: u8,
    ) -> (r: Self)
        ensures
            r@.message_type == 16,
            r@.protocol_name == seq![77u8, 81u8, 84u8, 84u8],
            r@.protocol_level == 4,
            r@.flags == connect_flags_for(will_topic, will_message, username, password, will_qos),
            r@.client_id == client_id@,
            r@.will_topic == opt_text(will_topic),
            r@.will_message == opt_text(will_message),
            r@.username == opt_text(username),
            r@.password == opt_text(password),
            r@.remaining_length == connect_remaining_length(r@),
    {
        assert(1u8 << 4u8 == 16) by (bit_vector);
        let fixed_header = FixedHeader { message_type: 1u8 << 4u8, remaining_length: 0 };
        let variable_header = VariableHeader {
            protocol_name: [77, 81, 84, 84],
            protocol_level: 4,
            connect_flags: ConnectFlags {
                username_flag: username.is_some(),
                password_flag: password.is_some(),
                will_retain: true,
                will_qos,
                will_flag: will_topic.is_some() && will_message.is_some(),
                clean_session: true,
                reserved: false,
            },
        };
        let payload = Payload { client_id, will_topic, will_message, username, password };
        let mut connect_message = ConnectMessage { fixed_header, variable_header, payload };
        connect_message.fixed_header.remaining_length = connect_message.calculate_remaining_length();
        assert(connect_message@.protocol_name =~= seq![77u8, 81u8, 84u8, 84u8]);
        connect_message
    }

    /// The remaining length of this packet, modulo 256.
    pub fn calculate_remaining_length(&self) -> (r: u8)
        ensures
            r == connect_remaining_length(self@),
    {
        let cid = text_len(&self.payload.client_id);
        let acc = add_mod256(8, cid);
        let acc = add_opt_field_len(acc, &self.payload.will_topic);
        let acc = add_opt_field_len(acc, &self.payload.will_message);
        let acc = add_opt_field_len(acc, &self.payload.username);
        let acc = add_opt_field_len(acc, &self.payload.password);
        proof {
            let m = self@;
            let l1 = opt_field_bytes(m.will_topic).len() as int;
            let l2 = opt_field_bytes(m.will_message).len() as int;
            let l3 = opt_field_bytes(m.username).len() as int;
            let l4 = opt_field_bytes(m.password).len() as int;
            let a0 = 8 + cid;
            lemma_mod256_add_left(a0, l1);
            lemma_mod256_add_left(a0 + l1, l2);
            lemma_mod256_add_left(a0 + l1 + l2, l3);
            lemma_mod256_add_left(a0 + l1 + l2 + l3, l4);
        }
        acc
    }

    /// The bytes of this packet; also stores the remaining length it sends.
    pub fn to_bytes(&mut self) -> (r: Vec<u8>)
        ensures
            r@ == connect_bytes(old(self)@),
            final(self).fixed_header.remaining_length == connect_remaining_length(old(self)@),
            final(self).fixed_header.message_type == old(self).fixed_header.message_type,
            final(self).variable_header == old(self).variable_header,
            final(self).payload == old(self).payload,
    {
        let mut bytes: Vec<u8> = Vec::new();
        bytes.push(self.fixed_header.message_type);
        self.fixed_header.remaining_length = self.calculate_remaining_length();
        bytes.push(self.fixed_header.remaining_length);
        bytes.push(4);
        push_slice(&mut bytes, &self.variable_header.protocol_name);
        bytes.push(self.variable_header.protocol_level);
        let connect_flags = self.variable_header.connect_flags.to_byte();
        bytes.push(connect_flags);
        push_field(&mut bytes, &self.payload.client_id);
        push_opt_field(&mut bytes, &self.payload.will_topic);
        push_opt_field(&mut bytes, &self.payload.will_message);
        push_opt_field(&mut bytes, &self.payload.username);
        push_opt_field(&mut bytes, &self.payload.password);
        assert(bytes@ =~= connect_bytes(old(self)@));
        bytes
    }

    /// Reads a CONNECT packet; `None` on the inputs that `parse_connect` rejects.
    pub fn try_from_bytes(bytes: &[u8]) -> (r: Option<Self>)
        ensures
            match parse_connect(bytes@) {
                Some(m) => r matches Some(c) && c@ == m,
                None => r is None,
            },
    {
        if bytes.len() < 9 || bytes[1] < 7 || (bytes[1] - 7) as usize > bytes.len() - 9 {
            return None;
        }
        let fixed_header = FixedHeader { message_type: bytes[0], remaining_length: bytes[1] };
        let variable_header = VariableHeader {
            protocol_name: [bytes[3], bytes[4], bytes[5], bytes[6]],
            protocol_level: bytes[7],
            connect_flags: ConnectFlags::from_byte(bytes[8]),
        };
        let payload_length = (fixed_header.remaining_length - 7) as usize;
        let payload_bytes = copy_range(bytes, 9, 9 + payload_length);
        match Self::process_payload(&variable_header.connect_flags, payload_bytes.as_slice()) {
            Some(payload) => {
                let r = ConnectMessage { fixed_header, variable_header, payload };
                assert(r@.protocol_name =~= bytes@.subrange(3, 7));
                Some(r)
            },
            None => None,
        }
    }

    /// Reads a CONNECT packet from bytes on which reading completes.
    pub fn from_bytes(bytes: &[u8]) -> (r: Self)
        requires
            parse_connect(bytes@) is Some,
        ensures
            parse_connect(bytes@) == Some(r@),
    {
        match Self::try_from_bytes(bytes) {
            Some(m) => m,
            None => {
                proof {
                    assert(false);
                }
                Self::new(String::new(), None, None, None, None, 0)
            },
        }
    }

    /// Reads the payload fields that `flags` announce.
    pub fn process_payload(flags: &ConnectFlags, bytes_payload: &[u8]) -> (r: Option<Payload>)
        ensures
            match parse_connect_payload(*flags, bytes_payload@) {
                Some((cid, wt, wm, u, pw)) => r matches Some(p) && p.client_id@ == cid && opt_text(
                    p.will_topic,
                ) == wt && opt_text(p.will_message) == wm && opt_text(p.username) == u && opt_text(
                    p.password,
                ) == pw,
                None => r is None,
            },
    {
        let (client_id, i1) = match read_field_exec(bytes_payload, 0) {
            Some(x) => x,
            None => return None,
        };
        let (will_topic, i2) = match read_opt_field_exec(bytes_payload, i1, flags.will_flag) {
            Some(x) => x,
            None => return None,
        };
        let (will_message, i3) = match read_opt_field_exec(bytes_payload, i2, flags.will_flag) {
            Some(x) => x,
            None => return None,
        };
        let (username, i4) = match read_opt_field_exec(bytes_payload, i3, flags.username_flag) {
            Some(x) => x,
            None => return None,
        };
        let (password, _) = match read_opt_field_exec(bytes_payload, i4, flags.password_flag) {
            Some(x) => x,
            None => return None,
        };
        Some(Payload { client_id, will_topic, will_message, username, password })
    }

    /// The user name, if the packet has one.
    pub fn get_user(&self) -> (r: Option<&String>)
        ensures
            r matches Some(u) ==> self.payload.username == Some(*u),
            r is None <==> self.payload.username is None,
    {
        match &self.payload.username {
            Some(u) => Some(u),
            None => None,
        }
    }

    /// The password, if the packet has one.
    pub fn get_passwd(&self) -> (r: Option<&String>)
        ensures
            r matches Some(p) ==> self.payload.password == Some(*p),
            r is None <==> self.payload.password is None,
    {
        match &self.payload.password {
            Some(p) => Some(p),
            None => None,
        }
    }

    /// The client id, which every CONNECT packet has.
    pub fn get_client_id(&self) -> (r: Option<&String>)
        ensures
            r == Some(&self.payload.client_id),
    {
        Some(&self.payload.client_id)
    }

    /// The will message to publish for this client, when the packet has both a
    /// will message and a will topic: with the will QoS and will retain flag.
    pub fn get_will_to_publish(&self) -> (r: Option<WillMessageAndTopic>)
        ensures
            (self.payload.will_message is Some && self.payload.will_topic is Some) <==> r is Some,
            r matches Some(w) ==> {
                &&& Some(w.will_message_content@) == opt_text(self.payload.will_message)
                &&& Some(w.will_topic@) == opt_text(self.payload.will_topic)
                &&& w.qos == self.variable_header.connect_flags.will_qos
                &&& w.will_retain == bit_u8(self.variable_header.connect_flags.will_retain)
            },
            will_view(r) == connect_will(*self),
    {
        if let Some(msg) = &self.payload.will_message {
            if let Some(topic) = &self.payload.will_topic {
                let will_msg = WillMessageAndTopic::new(
                    copy_string(msg),
                    copy_string(topic),
                    self.variable_header.connect_flags.will_qos,
                    if self.variable_header.connect_flags.will_retain {
                        1
                    } else {
                        0
                    },
                );
                return Some(will_msg);
            }
        }
        None
    }
}

/// 1 for true, 0 for false.
/// The will message that the CONNECT `c` asks the broker to keep, as
/// content, topic, qos and retain: present when `c` has both a will message
/// and a will topic.
pub open spec fn connect_will(c: ConnectMessage) -> Option<(Seq<char>, Seq<char>, u8, u8)> {
    match (c.payload.will_message, c.payload.will_topic) {
        (Some(m), Some(t)) => Some(
            (m@, t@, c.variable_header.connect_flags.will_qos, bit_u8(c.variable_header.connect_flags.will_retain)),
        ),
        _ => None,
    }
}

pub open spec fn bit_u8(b: bool) -> u8 {
    if b {
        1
    } else {
        0
    }
}

proof fn lemma_read_field_at(p: Seq<u8>, pos: int, s: Seq<char>)
    requires
        0 <= pos,
        text_bytes(s).len() <= 255,
        pos + field_bytes(s).len() <= p.len(),
        p.subrange(pos, pos + field_bytes(s).len()) == field_bytes(s),
    ensures
        read_field(p, pos) == Some((s, pos + field_bytes(s).len())),
{
    let f = field_bytes(s);
    let n = text_bytes(s).len() as int;
    assert(p[pos] == f[0]);
    assert(p.subrange(pos + 1, pos + 1 + n) =~= f.subrange(1, 1 + n));
    assert(f.subrange(1, 1 + n) =~= text_bytes(s));
}

proof fn lemma_read_opt_field_at(p: Seq<u8>, pos: int, o: Option<Seq<char>>, present: bool)
    requires
        0 <= pos,
        present == (o is Some),
        o matches Some(s) ==> text_bytes(s).len() <= 255,
        pos + opt_field_bytes(o).len() <= p.len(),
        p.subrange(pos, pos + opt_field_bytes(o).len()) == opt_field_bytes(o),
    ensures
        read_opt_field(p, pos, present) == Some((o, pos + opt_field_bytes(o).len())),
{
    if let Some(s) = o {
        lemma_read_field_at(p, pos, s);
    }
}

/// A CONNECT packet is read back from its bytes unchanged, its remaining
/// length being the one that writing it stores.
#[verifier::spinoff_prover]
#[verifier::rlimit(40)]
pub proof fn lemma_connect_roundtrip(m: ConnectModel)
    requires
        connect_model_wf(m),
    ensures
        parse_connect(connect_bytes(m)) == Some(
            ConnectModel { remaining_length: connect_remaining_length(m), ..m },
        ),
{
    let b = connect_bytes(m);
    let a0 = field_bytes(m.client_id);
    let a1 = opt_field_bytes(m.will_topic);
    let a2 = opt_field_bytes(m.will_message);
    let a3 = opt_field_bytes(m.username);
    let a4 = opt_field_bytes(m.password);
    let pl = connect_payload_bytes(m);
    assert(pl == a0 + a1 + a2 + a3 + a4);
    assert(b[1] == 7 + pl.len());
    let p = b.subrange(9, 9 + (b[1] - 7));
    assert(p =~= pl);
    assert(b.subrange(3, 7) =~= m.protocol_name);
    assert(b[8] == connect_flags_byte(m.flags));
    lemma_connect_flags_roundtrip(m.flags);
    let i1 = a0.len() as int;
    let i2 = i1 + a1.len();
    let i3 = i2 + a2.len();
    let i4 = i3 + a3.len();
    assert(p.subrange(0, i1) =~= a0);
    assert(p.subrange(i1, i2) =~= a1);
    assert(p.subrange(i2, i3) =~= a2);
    assert(p.subrange(i3, i4) =~= a3);
    assert(p.subrange(i4, i4 + a4.len()) =~= a4);
    lemma_read_field_at(p, 0, m.client_id);
    lemma_read_opt_field_at(p, i1, m.will_topic, m.flags.will_flag);
    lemma_read_opt_field_at(p, i2, m.will_message, m.flags.will_flag);
    lemma_read_opt_field_at(p, i3, m.username, m.flags.username_flag);
    lemma_read_opt_field_at(p, i4, m.password, m.flags.password_flag);
}

/// The user name and the password close a CONNECT that carries both, in
/// that order, each as a length byte followed by its UTF-8 bytes: the bytes
/// end with `[len(u)] ++ u ++ [len(p)] ++ p`.
pub proof fn lemma_connect_credentials_close_the_packet(m: ConnectModel, u: Seq<char>, p: Seq<char>)
    requires
        m.username == Some(u),
        m.password == Some(p),
    ensures
        ({
            let tail = seq![(text_bytes(u).len() % 256) as u8] + text_bytes(u) + seq![(text_bytes(p).len() % 256) as u8]
                + text_bytes(p);
            let b = connect_bytes(m);
            &&& b.len() >= tail.len()
            &&& b.subrange(b.len() - tail.len(), b.len() as int) == tail
        }),
{
    let tail = seq![(text_bytes(u).len() % 256) as u8] + text_bytes(u) + seq![(text_bytes(p).len() % 256) as u8]
        + text_bytes(p);
    let b = connect_bytes(m);
    let head = seq![m.message_type, connect_remaining_length(m), 4u8] + m.protocol_name + seq![
        m.protocol_level,
        connect_flags_byte(m.flags),
    ] + field_bytes(m.client_id) + opt_field_bytes(m.will_topic) + opt_field_bytes(m.will_message);
    assert(b =~= head + tail);
    assert(b.subrange(b.len() - tail.len(), b.len() as int) =~= tail);
}

/// Right after the client id field of a CONNECT (the payload starts at byte
/// 9) come the will topic field and then the will message field, each a
/// length byte followed by its UTF-8 bytes:
/// `[len(c)] ++ c ++ [len(t)] ++ t ++ [len(w)] ++ w`.
pub proof fn lemma_connect_will_follows_client_id(m: ConnectModel, t: Seq<char>, w: Seq<char>)
    requires
        m.protocol_name.len() == 4,
        m.will_topic == Some(t),
        m.will_message == Some(w),
    ensures
        ({
            let c = text_bytes(m.client_id);
            let mid = seq![(c.len() % 256) as u8] + c + seq![(text_bytes(t).len() % 256) as u8] + text_bytes(t) + seq![
                (text_bytes(w).len() % 256) as u8,
            ] + text_bytes(w);
            let b = connect_bytes(m);
            &&& b.len() >= 9 + mid.len()
            &&& b.subrange(9, 9 + mid.len() as int) == mid
        }),
{
    let c = text_bytes(m.client_id);
    let mid = seq![(c.len() % 256) as u8] + c + seq![(text_bytes(t).len() % 256) as u8] + text_bytes(t) + seq![
        (text_bytes(w).len() % 256) as u8,
    ] + text_bytes(w);
    let b = connect_bytes(m);
    let head = seq![m.message_type, connect_remaining_length(m), 4u8] + m.protocol_name + seq![
        m.protocol_level,
        connect_flags_byte(m.flags),
    ];
    let rest = opt_field_bytes(m.username) + opt_field_bytes(m.password);
    assert(head.len() == 9);
    assert(b =~= head + mid + rest);
    assert(b.subrange(9, 9 + mid.len() as int) =~= mid);
}

} // verus!
