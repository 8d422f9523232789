use vstd::prelude::*;
use crate::mqtt::messages::packet_type::PacketType;

verus! {

/// A packet received from a user, kept as bytes until it is processed.
pub struct Packet {
    pub message_type: PacketType,
    pub msg_bytes: Vec<u8>,
    pub username: String,
}

impl Packet {
    /// A packet of the given type and bytes, received from `username`.
    pub fn new(message_type: PacketType, msg_bytes: Vec<u8>, username: String) -> (r: Packet)
        ensures
            r.message_type == message_type,
            r.msg_bytes@ == msg_bytes@,
            r.username@ == username@,
    {
        Packet { message_type, msg_bytes, username }
    }

    /// The packet type.
    pub fn get_message_type(&self) -> (r: PacketType)
        ensures
            r == self.message_type,
    {
        self.message_type
    }

    /// A copy of the packet's bytes.
    pub fn get_msg_bytes(&self) -> (r: Vec<u8>)
        ensures
            r@ == self.msg_bytes@,
    {
        self.msg_bytes.clone()
    }

    /// The name of the user that sent the packet.
    pub fn get_username(&self) -> (r: &str)
        ensures
            r@ == self.username@,
    {
        self.username.as_str()
    }
}

} // verus!
