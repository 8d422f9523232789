use vstd::prelude::*;
use crate::mqtt::mqtt_utils::mqtt_error::MqttError;

verus! {

/// The return code that a SUBACK packet gives for each topic filter of a
/// SUBSCRIBE packet: the QoS granted, or failure.
#[derive(Debug, Copy, Clone, PartialEq, Eq, Structural)]
pub enum SubscribeReturnCode {
    QoS0,
    QoS1,
    QoS2,
    Failure,
}

/// The number a return code is sent as.
pub open spec fn return_code_value(c: SubscribeReturnCode) -> u16 {
    match c {
        SubscribeReturnCode::QoS0 => 0x00,
        SubscribeReturnCode::QoS1 => 0x01,
        SubscribeReturnCode::QoS2 => 0x02,
        SubscribeReturnCode::Failure => 0x80,
    }
}

/// The return code that the number `v` denotes, if any.
pub open spec fn return_code_from(v: u16) -> Option<SubscribeReturnCode> {
    if v == 0x00 {
        Some(SubscribeReturnCode::QoS0)
    } else if v == 0x01 {
        Some(SubscribeReturnCode::QoS1)
    } else if v == 0x02 {
        Some(SubscribeReturnCode::QoS2)
    } else if v == 0x80 {
        Some(SubscribeReturnCode::Failure)
    } else {
        None
    }
}

impl SubscribeReturnCode {
    /// The return code that `ret_code` denotes; refuses numbers that denote none.
    pub fn from_bytes(ret_code: u16) -> (r: Result<SubscribeReturnCode, MqttError>)
        ensures
            match return_code_from(ret_code) {
                Some(c) => r == Ok::<SubscribeReturnCode, MqttError>(c),
                None => r == Err::<SubscribeReturnCode, MqttError>(
                    MqttError::InvalidSubscribeReturnCode,
                ),
            },
    {
        match ret_code {
            0x00 => Ok(SubscribeReturnCode::QoS0),
            0x01 => Ok(SubscribeReturnCode::QoS1),
            0x02 => Ok(SubscribeReturnCode::QoS2),
            0x80 => Ok(SubscribeReturnCode::Failure),
            _ => Err(MqttError::InvalidSubscribeReturnCode),
        }
    }

    /// The number this return code is sent as.
    pub fn to_u16(&self) -> (r: u16)
        ensures
            r == return_code_value(*self),
    {
        match self {
            SubscribeReturnCode::QoS0 => 0x00,
            SubscribeReturnCode::QoS1 => 0x01,
            SubscribeReturnCode::QoS2 => 0x02,
            SubscribeReturnCode::Failure => 0x80,
        }
    }
}

/// Every return code is read back from the number it is sent as.
pub proof fn lemma_return_code_roundtrip(c: SubscribeReturnCode)
    ensures
        return_code_from(return_code_value(c)) == Some(c),
{
}

} // verus!
