use vstd::prelude::*;
use crate::mqtt::mqtt_utils::mqtt_error::MqttError;

verus! {

/// The answer of a CONNACK packet to a CONNECT.
#[derive(Debug, Clone, Copy, PartialEq, Eq, Structural)]
pub enum ConnectReturnCode {
    ConnectionAccepted,
    ProtocolError,
    IdentifierRejected,
    ServerUnavailable,
    BadUsernameOrPassword,
    NotAuthorized,
    UnspecifiedError,
}

/// The byte a return code is sent as.
pub open spec fn connect_return_code_value(c: ConnectReturnCode) -> u8 {
    match c {
        ConnectReturnCode::ConnectionAccepted => 0x00,
        ConnectReturnCode::ProtocolError => 0x01,
        ConnectReturnCode::IdentifierRejected => 0x02,
        ConnectReturnCode::ServerUnavailable => 0x03,
        ConnectReturnCode::BadUsernameOrPassword => 0x04,
        ConnectReturnCode::NotAuthorized => 0x05,
        ConnectReturnCode::UnspecifiedError => 0x80,
    }
}

/// The return code that the byte `b` denotes, if any.
pub open spec fn connect_return_code_from(b: u8) -> Option<ConnectReturnCode> {
    if b == 0 {
        Some(ConnectReturnCode::ConnectionAccepted)
    } else if b == 1 {
        Some(ConnectReturnCode::ProtocolError)
    } else if b == 2 {
        Some(ConnectReturnCode::IdentifierRejected)
    } else if b == 3 {
        Some(ConnectReturnCode::ServerUnavailable)
    } else if b == 4 {
        Some(ConnectReturnCode::BadUsernameOrPassword)
    } else if b == 5 {
        Some(ConnectReturnCode::NotAuthorized)
    } else if b == 0x80 {
        Some(ConnectReturnCode::UnspecifiedError)
    } else {
        None
    }
}

impl ConnectReturnCode {
    /// The one byte this return code is sent as.
    pub fn to_byte(&self) -> (r: [u8; 1])
        ensures
            r@ == seq![connect_return_code_value(*self)],
    {
        let b: u8 = match self {
            ConnectReturnCode::ConnectionAccepted => 0,
            ConnectReturnCode::ProtocolError => 1,
            ConnectReturnCode::IdentifierRejected => 2,
            ConnectReturnCode::ServerUnavailable => 3,
            ConnectReturnCode::BadUsernameOrPassword => 4,
            ConnectReturnCode::NotAuthorized => 5,
            ConnectReturnCode::UnspecifiedError => 0x80,
        };
        let r = [b];
        assert(r@ =~= seq![b]);
        r
    }

    /// The return code that the byte denotes; refuses bytes that denote none.
    pub fn from_byte(bytes: [u8; 1]) -> (r: Result<Self, MqttError>)
        ensures
            match connect_return_code_from(bytes@[0]) {
                Some(c) => r == Ok::<Self, MqttError>(c),
                None => r == Err::<Self, MqttError>(MqttError::InvalidConnectReturnCode),
            },
    {
        match bytes[0] {
            0 => Ok(ConnectReturnCode::ConnectionAccepted),
            1 => Ok(ConnectReturnCode::ProtocolError),
            2 => Ok(ConnectReturnCode::IdentifierRejected),
            3 => Ok(ConnectReturnCode::ServerUnavailable),
            4 => Ok(ConnectReturnCode::BadUsernameOrPassword),
            5 => Ok(ConnectReturnCode::NotAuthorized),
            0x80 => Ok(ConnectReturnCode::UnspecifiedError),
            _ => Err(MqttError::InvalidConnectReturnCode),
        }
    }
}

/// Every return code is read back from the byte it is sent as, and a byte
/// that denotes a return code is the byte that code is sent as.
pub proof fn lemma_connect_return_code_roundtrip(c: ConnectReturnCode, b: u8)
    ensures
        connect_return_code_from(connect_return_code_value(c)) == Some(c),
        connect_return_code_from(b) matches Some(d) ==> connect_return_code_value(d) == b,
{
}

/// The protocol byte of each return code: ConnectionAccepted 0,
/// ProtocolError 1, IdentifierRejected 2, ServerUnavailable 3,
/// BadUsernameOrPassword 4, NotAuthorized 5, UnspecifiedError 0x80; each of
/// these bytes reads back as its code, and every other byte as none.
pub proof fn lemma_connect_return_code_bytes(b: u8)
    ensures
        connect_return_code_value(ConnectReturnCode::ConnectionAccepted) == 0,
        connect_return_code_value(ConnectReturnCode::ProtocolError) == 1,
        connect_return_code_value(ConnectReturnCode::IdentifierRejected) == 2,
        connect_return_code_value(ConnectReturnCode::ServerUnavailable) == 3,
        connect_return_code_value(ConnectReturnCode::BadUsernameOrPassword) == 4,
        connect_return_code_value(ConnectReturnCode::NotAuthorized) == 5,
        connect_return_code_value(ConnectReturnCode::UnspecifiedError) == 0x80,
        connect_return_code_from(0) == Some(ConnectReturnCode::ConnectionAccepted),
        connect_return_code_from(1) == Some(ConnectReturnCode::ProtocolError),
        connect_return_code_from(2) == Some(ConnectReturnCode::IdentifierRejected),
        connect_return_code_from(3) == Some(ConnectReturnCode::ServerUnavailable),
        connect_return_code_from(4) == Some(ConnectReturnCode::BadUsernameOrPassword),
        connect_return_code_from(5) == Some(ConnectReturnCode::NotAuthorized),
        connect_return_code_from(0x80) == Some(ConnectReturnCode::UnspecifiedError),
        b > 5 && b != 0x80 ==> connect_return_code_from(b) is None,
{
}

} // verus!
