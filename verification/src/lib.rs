//! MQTT 3.1.1 message encoding and decoding, client-side message creation,
//! and the broker's per-topic message bookkeeping.
pub mod mqtt;
pub mod puback_message;
pub mod publish_fixed_header;
pub mod publish_flags;
pub mod publish_message;
pub mod publish_variable_header;
pub mod suback_message;
pub mod subscribe_message;
pub mod unsuback_fixed_header;
pub mod unsuback_message;
pub mod unsuback_variable_header;
pub mod unsubscribe_message;
