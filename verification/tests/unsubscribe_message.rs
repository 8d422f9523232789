use rustx::mqtt::mqtt_utils::mqtt_error::MqttError;
use rustx::unsubscribe_message::UnsubscribeMessage;

#[test]
fn test_unsubscribe_message_from_bytes_error() {
    let bytes = vec![0b1010_0010];
    let unsubscribe_message = UnsubscribeMessage::from_bytes(bytes);
    assert!(unsubscribe_message.is_err());
}

#[test]
fn test_unsubscribe_message_to_bytes() {
    let packet_identifier = 10;
    let topics = vec!["topic1".to_string(), "topic2".to_string()];
    let mut unsubscribe_message = UnsubscribeMessage::new(packet_identifier, topics);
    let bytes = unsubscribe_message.to_bytes();
    let expected_bytes = vec![
        0b1010_0010, 0x10, 0x00, 0x0A, 0x06, 0x74, 0x6F, 0x70, 0x69, 0x63, 0x31, 0x06, 0x74, 0x6F, 0x70,
        0x69, 0x63, 0x32,
    ];
    assert_eq!(bytes, expected_bytes);
}

#[test]
fn test_unsubscribe_message_from_bytes() {
    let bytes = vec![
        0b1010_0010, 0x10, 0x00, 0x0B, 0x06, 0x74, 0x6F, 0x70, 0x69, 0x63, 0x31, 0x06, 0x74, 0x6F, 0x70,
        0x69, 0x63, 0x32,
    ];
    let unsubscribe_message = UnsubscribeMessage::from_bytes(bytes).unwrap();
    assert_eq!(unsubscribe_message.fixed_header.message_type, 0b1010);
    assert_eq!(unsubscribe_message.fixed_header.reserved, 0b0010);
    assert_eq!(unsubscribe_message.fixed_header.remaining_length, 0x10);
    assert_eq!(unsubscribe_message.variable_header.packet_identifier, 11);
    assert_eq!(unsubscribe_message.payload.topics, vec!["topic1".to_string(), "topic2".to_string()]);
}

#[test]
fn test_unsubscribe_message_to_bytes_and_back() {
    let packet_identifier = 12;
    let topics = vec!["topic1".to_string(), "topic2".to_string()];
    let mut unsubscribe_message = UnsubscribeMessage::new(packet_identifier, topics);
    let bytes = unsubscribe_message.to_bytes();
    let new_unsubscribe_message = UnsubscribeMessage::from_bytes(bytes).unwrap();
    assert_eq!(unsubscribe_message.fixed_header.message_type, new_unsubscribe_message.fixed_header.message_type);
    assert_eq!(unsubscribe_message.fixed_header.reserved, new_unsubscribe_message.fixed_header.reserved);
    assert_eq!(
        unsubscribe_message.fixed_header.remaining_length,
        new_unsubscribe_message.fixed_header.remaining_length
    );
    assert_eq!(
        unsubscribe_message.variable_header.packet_identifier,
        new_unsubscribe_message.variable_header.packet_identifier
    );
    assert_eq!(unsubscribe_message.payload.topics, new_unsubscribe_message.payload.topics);
}

#[test]
fn unsubscribe_remaining_length_counts_length_bytes() {
    let m = UnsubscribeMessage::new(1, vec!["a".to_string(), "".to_string(), "ñ".to_string()]);
    assert_eq!(m.calculate_remaining_length(), 2 + 2 + 1 + 3);
    assert_eq!(m.fixed_header.remaining_length, 8);
}

#[test]
fn unsubscribe_invalid_topic_is_refused() {
    let r = UnsubscribeMessage::from_bytes(vec![0xA2, 3, 0, 1, 1, 0xFF]);
    assert_eq!(r.err(), Some(MqttError::InvalidUtf8));
}
