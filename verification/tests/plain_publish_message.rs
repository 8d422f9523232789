use rustx::mqtt::mqtt_utils::mqtt_error::MqttError;
use rustx::publish_flags::PublishFlags;
use rustx::publish_message::PublishMessage;

#[test]
fn test_packet_identifier_none_if_qos_0() {
    let message = PublishMessage::new(1, PublishFlags::new(0, 0, 0).unwrap(), "test/topic", Some(23), &[1, 2, 3, 4, 5]);
    assert!(message.is_err());
}

#[test]
fn test_publish_message_to_and_from_bytes() {
    let original_message =
        PublishMessage::new(1, PublishFlags::new(0, 1, 0).unwrap(), "test/topic", Some(1234), &[1, 2, 3, 4, 5])
            .unwrap();
    let bytes = original_message.to_bytes();
    let recovered_message = PublishMessage::from_bytes(bytes).unwrap();
    assert_eq!(original_message.fixed_header.message_type, recovered_message.fixed_header.message_type);
    assert_eq!(original_message.fixed_header.flags, recovered_message.fixed_header.flags);
    assert_eq!(
        original_message.fixed_header.remaining_length,
        recovered_message.fixed_header.remaining_length
    );
    assert_eq!(original_message.variable_header.topic_name, recovered_message.variable_header.topic_name);
    assert_eq!(
        original_message.variable_header.packet_identifier,
        recovered_message.variable_header.packet_identifier
    );
    assert_eq!(original_message.payload.content, recovered_message.payload.content);
}

#[test]
fn plain_publish_bytes_are_exact() {
    let m = PublishMessage::new(3, PublishFlags::new(1, 2, 1).unwrap(), "ab", Some(0x0102), &[9]).unwrap();
    assert_eq!(m.fixed_header.remaining_length, 7);
    assert_eq!(m.to_bytes(), vec![0x3D, 7, 0, 2, b'a', b'b', 1, 2, 9]);
    assert_eq!(m.get_payload(), vec![9]);
    assert_eq!(m.get_topic(), "ab");
    assert_eq!(m.get_packet_identifier(), Some(0x0102));
}

#[test]
fn plain_publish_reading_errors() {
    assert_eq!(PublishMessage::from_bytes(vec![0x30, 2, 0, 0]).err(), Some(MqttError::NotEnoughBytes));
    assert_eq!(PublishMessage::from_bytes(vec![0x30, 3, 0, 1, 0xFF]).err(), Some(MqttError::InvalidUtf8));
}
