use vstd::prelude::*;

verus! {

/// The control packet type carried in the four high bits of the first byte
/// of every MQTT packet.
#[derive(Debug, PartialEq, Eq, Copy, Clone, Structural)]
pub enum PacketType {
    Connect,
    Connack,
    Publish,
    Puback,
    Pubrec,
    Pubrel,
    Pubcomp,
    Subscribe,
    Suback,
    Unsubscribe,
    Unsuback,
    Pingreq,
    Pingresp,
    Disconnect,
    /// Values 0 and 15 (and anything that is not a packet type).
    Reserved,
}

/// The packet type that the number `value` denotes.
pub open spec fn packet_type_of(value: u8) -> PacketType {
    if value == 1 {
        PacketType::Connect
    } else if value == 2 {
        PacketType::Connack
    } else if value == 3 {
        PacketType::Publish
    } else if value == 4 {
        PacketType::Puback
    } else if value == 5 {
        PacketType::Pubrec
    } else if value == 6 {
        PacketType::Pubrel
    } else if value == 7 {
        PacketType::Pubcomp
    } else if value == 8 {
        PacketType::Subscribe
    } else if value == 9 {
        PacketType::Suback
    } else if value == 10 {
        PacketType::Unsubscribe
    } else if value == 11 {
        PacketType::Unsuback
    } else if value == 12 {
        PacketType::Pingreq
    } else if value == 13 {
        PacketType::Pingresp
    } else if value == 14 {
        PacketType::Disconnect
    } else {
        PacketType::Reserved
    }
}

impl From<u8> for PacketType {
    fn from(value: u8) -> (res: Self) {
        match value {
            1 => PacketType::Connect,
            2 => PacketType::Connack,
            3 => PacketType::Publish,
            4 => PacketType::Puback,
            5 => PacketType::Pubrec,
            6 => PacketType::Pubrel,
            7 => PacketType::Pubcomp,
            8 => PacketType::Subscribe,
            9 => PacketType::Suback,
            10 => PacketType::Unsubscribe,
            11 => PacketType::Unsuback,
            12 => PacketType::Pingreq,
            13 => PacketType::Pingresp,
            14 => PacketType::Disconnect,
            _ => PacketType::Reserved,
        }
    }
}

impl vstd::std_specs::convert::FromSpecImpl<u8> for PacketType {
    open spec fn obeys_from_spec() -> bool {
        true
    }

    open spec fn from_spec(v: u8) -> PacketType {
        packet_type_of(v)
    }
}

} // verus!
