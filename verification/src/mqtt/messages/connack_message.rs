use vstd::prelude::*;
use crate::mqtt::messages::connack_session_present::SessionPresent;
use crate::mqtt::messages::connack_session_present::session_present_value;
use crate::mqtt::messages::connect_return_code::ConnectReturnCode;
use crate::mqtt::messages::connect_return_code::connect_return_code_from;
use crate::mqtt::messages::connect_return_code::connect_return_code_value;
use crate::mqtt::mqtt_utils::mqtt_error::MqttError;

verus! {

/// A CONNACK packet: the server's answer to a CONNECT.
#[derive(Debug, Clone, Copy, PartialEq, Eq, Structural)]
pub struct ConnackMessage {
    pub session_present: SessionPresent,
    pub connect_return_code: ConnectReturnCode,
}

/// The four bytes a CONNACK packet is sent as: type 2, remaining length 2,
/// acknowledge flags and return code.
pub open spec fn connack_bytes(m: ConnackMessage) -> Seq<u8> {
    seq![0x20u8, 0x02u8, session_present_value(m.session_present), connect_return_code_value(m.connect_return_code)]
}

/// What reading a CONNACK packet from `b` gives.
pub open spec fn parse_connack(b: Seq<u8>) -> Result<ConnackMessage, MqttError> {
    if b.len() < 4 {
        Err(MqttError::NotEnoughBytes)
    } else if b[0] >> 4u8 != 2 {
        Err(MqttError::WrongPacketType)
    } else {
        match connect_return_code_from(b[3]) {
            None => Err(MqttError::InvalidConnectReturnCode),
            Some(c) => Ok(
                ConnackMessage {
                    session_present: if b[2] & 1u8 == 1 {
                        SessionPresent::PresentInLastSession
                    } else {
                        SessionPresent::NotPresentInLastSession
                    },
                    connect_return_code: c,
                },
            ),
        }
    }
}

impl ConnackMessage {
    /// A CONNACK with the given flag and return code.
    pub fn new(session_present: SessionPresent, connect_return_code: ConnectReturnCode) -> (r: Self)
        ensures
            r == (ConnackMessage { session_present, connect_return_code }),
    {
        ConnackMessage { session_present, connect_return_code }
    }

    /// The four bytes of this packet.
    pub fn to_bytes(&self) -> (r: Vec<u8>)
        ensures
            r@ == connack_bytes(*self),
    {
        let mut v: Vec<u8> = Vec::new();
        v.push(0x20);
        v.push(0x02);
        v.push(self.session_present.to_byte());
        let rc = self.connect_return_code.to_byte();
        v.push(rc[0]);
        v
    }

    /// Reads a CONNACK packet; refuses fewer than four bytes, a packet type
    /// other than 2, and an unknown return code.
    pub fn from_bytes(bytes: &[u8]) -> (r: Result<Self, MqttError>)
        ensures
            r == parse_connack(bytes@),
    {
        if bytes.len() < 4 {
            return Err(MqttError::NotEnoughBytes);
        }
        if bytes[0] >> 4 != 2 {
            return Err(MqttError::WrongPacketType);
        }
        let code = match ConnectReturnCode::from_byte([bytes[3]]) {
            Ok(c) => c,
            Err(e) => return Err(e),
        };
        Ok(ConnackMessage { session_present: SessionPresent::from_byte(bytes[2]), connect_return_code: code })
    }

    /// The return code.
    pub fn get_connect_return_code(&self) -> (r: ConnectReturnCode)
        ensures
            r == self.connect_return_code,
    {
        self.connect_return_code
    }

    /// The session present flag.
    pub fn get_session_present(&self) -> (r: SessionPresent)
        ensures
            r == self.session_present,
    {
        self.session_present
    }
}

/// Every CONNACK packet is read back unchanged from its bytes.
pub proof fn lemma_connack_roundtrip(m: ConnackMessage)
    ensures
        parse_connack(connack_bytes(m)) == Ok::<ConnackMessage, MqttError>(m),
{
    assert(0x20u8 >> 4u8 == 2) by (bit_vector);
    assert(1u8 & 1u8 == 1 && 0u8 & 1u8 == 0) by (bit_vector);
    crate::mqtt::messages::connect_return_code::lemma_connect_return_code_roundtrip(
        m.connect_return_code,
        0,
    );
}

} // verus!
