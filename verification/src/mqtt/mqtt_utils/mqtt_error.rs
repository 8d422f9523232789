use vstd::prelude::*;

verus! {

/// Why an MQTT operation of this library was refused.
#[derive(Debug, PartialEq, Eq, Clone, Copy, Structural)]
pub enum MqttError {
    /// Publish flags out of range (dup or retain above 1, or qos above 2).
    InvalidPublishFlags,
    /// A publish flags byte whose packet type is not publish.
    InvalidPublishType,
    /// A packet identifier was given for a publish with qos 0.
    PacketIdentifierWithQos0,
    /// Fewer bytes than the smallest valid packet of its kind.
    NotEnoughBytes,
    /// A topic name that is not valid UTF-8.
    InvalidUtf8,
    /// A byte that is no CONNACK return code.
    InvalidConnectReturnCode,
    /// A number that is no SUBACK return code.
    InvalidSubscribeReturnCode,
    /// The packet type field does not match the packet being read.
    WrongPacketType,
    /// A text that names no application type.
    InvalidAppType,
    /// A text that encodes no will content.
    InvalidWillContent,
    /// The system clock reads a time before the Unix epoch.
    ClockBeforeUnixEpoch,
    /// A message may not be written to a user that is not connected.
    UserNotConnected,
    /// A user's delivery index is beyond the messages kept for a topic.
    DeliveryIndexBeyondQueue,
    /// No connected users to compute a minimum over.
    NoUsers,
    /// A PUBLISH whose remaining length does not fit in one byte.
    PacketTooLong,
    /// A topic already holds the most messages it may keep.
    TopicQueueFull,
    /// A packet type that the receiver does not handle.
    UnknownPacketType,
    /// The server refused the connection.
    ConnectionRefused,
    /// No CONNACK arrived after every retransmission of the CONNECT.
    MaxRetriesReached,
}

} // verus!
