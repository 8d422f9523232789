use vstd::prelude::*;
use crate::mqtt::messages::subscribe_return_code::SubscribeReturnCode;
use crate::mqtt::messages::subscribe_return_code::return_code_from;
use crate::mqtt::messages::subscribe_return_code::return_code_value;
use crate::mqtt::mqtt_utils::codec::be_u16_bytes;
use crate::mqtt::mqtt_utils::codec::push_u16_be;
use crate::mqtt::mqtt_utils::codec::u16_from_be;
use crate::mqtt::mqtt_utils::codec::u16_from_be_bytes;
use crate::mqtt::mqtt_utils::mqtt_error::MqttError;

verus! {

/// What a SUBACK packet holds.
pub struct SubAckModel {
    pub message_type: u8,
    pub reserved_flags: u8,
    pub packet_identifier: u16,
    pub return_codes: Seq<SubscribeReturnCode>,
}

/// A SUBACK packet: the server's answer to a SUBSCRIBE, one return code per
/// topic filter.
#[derive(Debug, PartialEq)]
pub struct SubAckMessage {
    /// Four high bits of the first byte: always 9.
    pub message_type: u8,
    /// Four low bits of the first byte: 0.
    pub reserved_flags: u8,
    pub packet_identifier: u16,
    /// Each sent in two bytes.
    pub return_codes: Vec<SubscribeReturnCode>,
}

impl View for SubAckMessage {
    type V = SubAckModel;

    open spec fn view(&self) -> SubAckModel {
        SubAckModel {
            message_type: self.message_type,
            reserved_flags: self.reserved_flags,
            packet_identifier: self.packet_identifier,
            return_codes: self.return_codes@,
        }
    }
}

/// The return codes, two bytes each.
pub open spec fn codes_bytes(cs: Seq<SubscribeReturnCode>) -> Seq<u8>
    decreases cs.len(),
{
    if cs.len() == 0 {
        Seq::empty()
    } else {
        codes_bytes(cs.drop_last()) + be_u16_bytes(return_code_value(cs.last()))
    }
}

/// The bytes a SUBACK packet is sent as.
pub open spec fn suback_bytes(m: SubAckModel) -> Seq<u8> {
    seq![(m.message_type << 4u8) | m.reserved_flags, (2 + 2 * m.return_codes.len()) as u8]
        + be_u16_bytes(m.packet_identifier) + codes_bytes(m.return_codes)
}

/// Reads return codes from position `idx` of `b` while `read` (counting
/// the packet identifier's two bytes) is below the remaining length `rem`.
/// `None` where reading cannot complete: a code past the end of `b`, or the
/// one-byte count of bytes read passing 255.
pub open spec fn parse_codes(b: Seq<u8>, idx: int, read: int, rem: int) -> Option<
    Result<Seq<SubscribeReturnCode>, MqttError>,
>
    decreases 255 - read,
{
    if read >= rem {
        Some(Ok(Seq::empty()))
    } else if idx < 0 || idx + 1 >= b.len() {
        None
    } else {
        match return_code_from(u16_from_be(b[idx], b[idx + 1])) {
            None => Some(Err(MqttError::InvalidSubscribeReturnCode)),
            Some(c) => if read + 2 > 255 {
                None
            } else {
                match parse_codes(b, idx + 2, read + 2, rem) {
                    None => None,
                    Some(Err(e)) => Some(Err(e)),
                    Some(Ok(cs)) => Some(Ok(seq![c] + cs)),
                }
            },
        }
    }
}

/// What reading a SUBACK packet from `b` gives; `None` where reading cannot
/// complete: fewer than 4 bytes, or as `parse_codes` says.
pub open spec fn parse_suback(b: Seq<u8>) -> Option<Result<SubAckModel, MqttError>> {
    if b.len() < 4 {
        None
    } else {
        match parse_codes(b, 4, 2, b[1] as int) {
            None => None,
            Some(Err(e)) => Some(Err(e)),
            Some(Ok(cs)) => if b[0] >> 4u8 != 9 {
                Some(Err(MqttError::WrongPacketType))
            } else {
                Some(
                    Ok(
                        SubAckModel {
                            message_type: b[0] >> 4u8,
                            reserved_flags: b[0] & 0x0Fu8,
                            packet_identifier: u16_from_be(b[2], b[3]),
                            return_codes: cs,
                        },
                    ),
                )
            },
        }
    }
}

/// `parse_codes` of codes read so far followed by the rest.
pub open spec fn prepend_codes(
    cs: Seq<SubscribeReturnCode>,
    r: Option<Result<Seq<SubscribeReturnCode>, MqttError>>,
) -> Option<Result<Seq<SubscribeReturnCode>, MqttError>> {
    match r {
        None => None,
        Some(Err(e)) => Some(Err(e)),
        Some(Ok(rest)) => Some(Ok(cs + rest)),
    }
}

impl SubAckMessage {
    /// A SUBACK for `packet_id` with the given return codes.
    pub fn new(packet_id: u16, return_codes: Vec<SubscribeReturnCode>) -> (r: Self)
        ensures
            r@ == (SubAckModel {
                message_type: 9,
                reserved_flags: 0,
                packet_identifier: packet_id,
                return_codes: return_codes@,
            }),
    {
        Self { message_type: 9, reserved_flags: 0, packet_identifier: packet_id, return_codes }
    }

    /// The packet identifier.
    pub fn get_packet_id(&self) -> (r: u16)
        ensures
            r == self.packet_identifier,
    {
        self.packet_identifier
    }

    /// Two bytes of packet identifier plus two per return code.
    pub fn remaining_length(&self) -> (r: u8)
        requires
            self.return_codes@.len() <= 126,
        ensures
            r == 2 + 2 * self.return_codes@.len(),
    {
        let mut rem_len: u8 = 2;
        let mut i: usize = 0;
        while i < self.return_codes.len()
            invariant
                i <= self.return_codes@.len() <= 126,
                rem_len == 2 + 2 * i,
            decreases self.return_codes@.len() - i,
        {
            rem_len = rem_len + 2;
            i = i + 1;
        }
        rem_len
    }

    /// The bytes of this packet, numbers most significant byte first.
    pub fn to_bytes(&self) -> (r: Vec<u8>)
        requires
            self.return_codes@.len() <= 126,
        ensures
            r@ == suback_bytes(self@),
    {
        let mut msg_bytes: Vec<u8> = Vec::new();
        let byte_de_tipo = (self.message_type << 4) | self.reserved_flags;
        msg_bytes.push(byte_de_tipo);
        let rem_len = self.remaining_length();
        msg_bytes.push(rem_len);
        push_u16_be(&mut msg_bytes, self.packet_identifier);
        let mut i: usize = 0;
        while i < self.return_codes.len()
            invariant
                i <= self.return_codes@.len(),
                msg_bytes@ == seq![byte_de_tipo, rem_len] + be_u16_bytes(self.packet_identifier)
                    + codes_bytes(self.return_codes@.subrange(0, i as int)),
            decreases self.return_codes@.len() - i,
        {
            let code = self.return_codes[i].to_u16();
            push_u16_be(&mut msg_bytes, code);
            i = i + 1;
            assert(self.return_codes@.subrange(0, i as int).drop_last() =~= self.return_codes@.subrange(
                0,
                i - 1,
            ));
        }
        assert(self.return_codes@.subrange(0, i as int) =~= self.return_codes@);
        msg_bytes
    }

    /// Whether `from_bytes` completes on `msg_bytes`.
    pub fn can_parse(msg_bytes: &Vec<u8>) -> (r: bool)
        ensures
            r == parse_suback(msg_bytes@) is Some,
    {
        let ghost b = msg_bytes@;
        if msg_bytes.len() < 4 {
            return false;
        }
        let rem_len = msg_bytes[1] as u16;
        let mut read: u16 = 2;
        let mut idx: usize = 4;
        while read < rem_len
            invariant
                b == msg_bytes@,
                b.len() >= 4,
                rem_len == b[1],
                2 <= read <= 256,
                idx == read + 2,
                (parse_codes(b, 4, 2, rem_len as int) is Some) == (parse_codes(b, idx as int, read as int, rem_len as int) is Some),
            decreases 256 - read,
        {
            if idx + 1 >= msg_bytes.len() {
                return false;
            }
            let code = u16_from_be_bytes(msg_bytes[idx], msg_bytes[idx + 1]);
            if SubscribeReturnCode::from_bytes(code).is_err() {
                return true;
            }
            if read + 2 > 255 {
                return false;
            }
            read = read + 2;
            idx = idx + 2;
        }
        true
    }

    /// Reads a SUBACK packet on bytes where reading completes; refuses an
    /// invalid return code, and a packet type other than 9.
    pub fn from_bytes(msg_bytes: Vec<u8>) -> (r: Result<SubAckMessage, MqttError>)
        requires
            parse_suback(msg_bytes@) is Some,
        ensures
            match r {
                Ok(m) => parse_suback(msg_bytes@) == Some(Ok::<SubAckModel, MqttError>(m@)),
                Err(e) => parse_suback(msg_bytes@) == Some(Err::<SubAckModel, MqttError>(e)),
            },
    {
        let ghost b = msg_bytes@;
        let byte_de_tipo_y_flags = msg_bytes[0];
        let tipo = byte_de_tipo_y_flags >> 4;
        let reserved_flags = byte_de_tipo_y_flags & 0b0000_1111;
        let rem_len = msg_bytes[1];
        let mut idx: usize = 2;
        let packet_id = u16_from_be_bytes(msg_bytes[idx], msg_bytes[idx + 1]);
        idx = idx + 2;
        let mut rem_len_leida: u8 = 2;
        let mut ret_codes: Vec<SubscribeReturnCode> = Vec::new();
        while rem_len_leida < rem_len
            invariant
                b == msg_bytes@,
                b.len() >= 4,
                rem_len == b[1],
                2 <= rem_len_leida,
                idx == rem_len_leida + 2,
                parse_codes(b, 4, 2, rem_len as int) == prepend_codes(
                    ret_codes@,
                    parse_codes(b, idx as int, rem_len_leida as int, rem_len as int),
                ),
                parse_codes(b, idx as int, rem_len_leida as int, rem_len as int) is Some,
            decreases 256 - rem_len_leida,
        {
            let ret_code = u16_from_be_bytes(msg_bytes[idx], msg_bytes[idx + 1]);
            idx = idx + 2;
            let elemento = match SubscribeReturnCode::from_bytes(ret_code) {
                Ok(c) => c,
                Err(e) => return Err(e),
            };
            let ghost before = ret_codes@;
            ret_codes.push(elemento);
            rem_len_leida = rem_len_leida + 2;
            proof {
                assert(ret_codes@ == before + seq![elemento]);
                let rest = parse_codes(b, idx as int, rem_len_leida as int, rem_len as int);
                match rest {
                    Some(Ok(xs)) => {
                        assert(before + (seq![elemento] + xs) =~= (before + seq![elemento]) + xs);
                    },
                    _ => {},
                }
            }
        }
        if tipo != 9 {
            return Err(MqttError::WrongPacketType);
        }
        assert(ret_codes@ + Seq::<SubscribeReturnCode>::empty() =~= ret_codes@);
        Ok(
            SubAckMessage {
                message_type: tipo,
                reserved_flags,
                packet_identifier: packet_id,
                return_codes: ret_codes,
            },
        )
    }
}

proof fn lemma_codes_bytes_len(cs: Seq<SubscribeReturnCode>)
    ensures
        codes_bytes(cs).len() == 2 * cs.len(),
    decreases cs.len(),
{
    if cs.len() > 0 {
        lemma_codes_bytes_len(cs.drop_last());
    }
}

proof fn lemma_codes_bytes_index(cs: Seq<SubscribeReturnCode>, i: int)
    requires
        0 <= i < cs.len(),
    ensures
        codes_bytes(cs).subrange(2 * i, 2 * i + 2) == be_u16_bytes(return_code_value(cs[i])),
    decreases cs.len(),
{
    lemma_codes_bytes_len(cs);
    lemma_codes_bytes_len(cs.drop_last());
    if i == cs.len() - 1 {
        assert(codes_bytes(cs).subrange(2 * i, 2 * i + 2) =~= be_u16_bytes(return_code_value(cs[i])));
    } else {
        lemma_codes_bytes_index(cs.drop_last(), i);
        assert(codes_bytes(cs).subrange(2 * i, 2 * i + 2) =~= codes_bytes(cs.drop_last()).subrange(
            2 * i,
            2 * i + 2,
        ));
    }
}

proof fn lemma_parse_codes_of_bytes(b: Seq<u8>, cs: Seq<SubscribeReturnCode>, i: int)
    requires
        cs.len() <= 126,
        b.len() == 4 + 2 * cs.len(),
        b.subrange(4, b.len() as int) == codes_bytes(cs),
        0 <= i <= cs.len(),
    ensures
        parse_codes(b, 4 + 2 * i, 2 + 2 * i, (2 + 2 * cs.len()) as int) == Some(
            Ok::<Seq<SubscribeReturnCode>, MqttError>(cs.subrange(i, cs.len() as int)),
        ),
    decreases cs.len() - i,
{
    let n = cs.len() as int;
    if i < n {
        lemma_parse_codes_of_bytes(b, cs, i + 1);
        lemma_codes_bytes_index(cs, i);
        let c = cs[i];
        let w = be_u16_bytes(return_code_value(c));
        assert(b[4 + 2 * i] == b.subrange(4, b.len() as int)[2 * i]);
        assert(b[5 + 2 * i] == b.subrange(4, b.len() as int)[2 * i + 1]);
        assert(codes_bytes(cs)[2 * i] == codes_bytes(cs).subrange(2 * i, 2 * i + 2)[0]);
        assert(codes_bytes(cs)[2 * i + 1] == codes_bytes(cs).subrange(2 * i, 2 * i + 2)[1]);
        assert(b[4 + 2 * i] == w[0] && b[5 + 2 * i] == w[1]);
        crate::mqtt::mqtt_utils::codec::lemma_u16_roundtrip(return_code_value(c));
        crate::mqtt::messages::subscribe_return_code::lemma_return_code_roundtrip(c);
        assert(seq![c] + cs.subrange(i + 1, n) =~= cs.subrange(i, n));
    } else {
        assert(cs.subrange(i, n) =~= Seq::<SubscribeReturnCode>::empty());
    }
}

/// A SUBACK packet of type 9 with four-bit flags and at most 126 return codes
/// is read back unchanged from its bytes.
pub proof fn lemma_suback_roundtrip(m: SubAckModel)
    requires
        m.message_type == 9,
        m.reserved_flags < 16,
        m.return_codes.len() <= 126,
    ensures
        parse_suback(suback_bytes(m)) == Some(Ok::<SubAckModel, MqttError>(m)),
{
    let b = suback_bytes(m);
    let (t, f) = (m.message_type, m.reserved_flags);
    assert(t == 9 && f < 16 ==> ((t << 4u8) | f) >> 4u8 == 9 && ((t << 4u8) | f) & 0x0Fu8 == f)
        by (bit_vector);
    lemma_codes_bytes_len(m.return_codes);
    assert(b.subrange(4, b.len() as int) =~= codes_bytes(m.return_codes));
    lemma_parse_codes_of_bytes(b, m.return_codes, 0);
    assert(m.return_codes.subrange(0, m.return_codes.len() as int) =~= m.return_codes);
    crate::mqtt::mqtt_utils::codec::lemma_u16_roundtrip(m.packet_identifier);
}

} // verus!
