use rustx::mqtt::messages::publish_message::{decrypt_3des, encrypt_3des, PublishMessage};
use rustx::mqtt::mqtt_utils::mqtt_error::MqttError;
use rustx::publish_flags::PublishFlags;

fn create_test_publish_message() -> Result<PublishMessage, MqttError> {
    let flags = PublishFlags::new(0, 1, 0).unwrap();
    let topic_name = "test/topic";
    let packet_identifier = Some(42);
    let content = b"Hello, world!";
    PublishMessage::new(flags, topic_name, packet_identifier, content)
}

#[test]
fn test_to_bytes() {
    let publish_message = create_test_publish_message().unwrap();
    let bytes = publish_message.to_bytes();
    let deserialized_message = PublishMessage::from_bytes(bytes).unwrap();
    assert_eq!(publish_message.fixed_header.flags, deserialized_message.fixed_header.flags);
    assert_eq!(
        publish_message.variable_header.topic_name,
        deserialized_message.variable_header.topic_name
    );
    assert_eq!(
        publish_message.variable_header.packet_identifier,
        deserialized_message.variable_header.packet_identifier
    );
    assert_eq!(publish_message.payload.content, deserialized_message.payload.content);
    assert_eq!(publish_message.timestamp, deserialized_message.timestamp);
}

#[test]
fn test_bytes_and_comparison() {
    let publish_message = create_test_publish_message().unwrap();
    let bytes = publish_message.to_bytes();
    let deserialized_message = PublishMessage::from_bytes(bytes).unwrap();
    assert_eq!(publish_message.get_timestamp(), deserialized_message.get_timestamp());
}

#[test]
fn test_timestamp_comparison() {
    let msg1 = create_test_publish_message().unwrap();
    let mut msg2 = create_test_publish_message().unwrap();
    let mut tries = 0;
    while msg2.get_timestamp() == msg1.get_timestamp() && tries < 1_000_000 {
        msg2 = create_test_publish_message().unwrap();
        tries += 1;
    }
    assert!(msg1.get_timestamp() < msg2.get_timestamp());
}

#[test]
fn test_encrypt() {
    let content = [1, 2, 3, 4, 5, 6, 7, 8, 9, 10];
    let encrypted_content = encrypt_3des(&content);
    assert_ne!(content.to_vec(), encrypted_content);
}

#[test]
fn test_decrypt() {
    let content = [1, 2, 3, 4, 5, 6, 7, 8, 9, 10];
    let encrypted_content = encrypt_3des(&content);
    let decrypted_content = decrypt_3des(&encrypted_content);
    assert_eq!(content.to_vec(), decrypted_content);
}

#[test]
fn encrypted_payload_is_padded_to_whole_blocks() {
    assert_eq!(encrypt_3des(&[]).len(), 8);
    assert_eq!(encrypt_3des(&[7; 8]).len(), 16);
    assert_eq!(encrypt_3des(&[7; 13]).len(), 16);
}

#[test]
fn payload_getter_decrypts() {
    let publish_message = create_test_publish_message().unwrap();
    assert_ne!(publish_message.payload.content, b"Hello, world!".to_vec());
    assert_eq!(publish_message.get_payload(), b"Hello, world!".to_vec());
    assert_eq!(publish_message.try_get_payload(), Some(b"Hello, world!".to_vec()));
    assert_eq!(publish_message.get_topic(), "test/topic");
    assert_eq!(publish_message.get_qos(), 1);
}

#[test]
fn packet_identifier_refused_with_qos_0() {
    let flags = PublishFlags::new(0, 0, 0).unwrap();
    let r = PublishMessage::new(flags, "t", Some(1), b"x");
    assert_eq!(r.err(), Some(MqttError::PacketIdentifierWithQos0));
}

#[test]
fn fixed_timestamp_bytes_are_exact() {
    let flags = PublishFlags::new(0, 1, 0).unwrap();
    let m = PublishMessage::new_with_timestamp(flags, "ab", Some(0x0102), b"", 5).unwrap();
    let bytes = m.to_bytes();
    // flags, remaining length, topic length, topic, packet id, 8 payload bytes, 16 time bytes
    assert_eq!(bytes.len(), 2 + 2 + 2 + 2 + 8 + 16);
    assert_eq!(&bytes[0..8], &[0x32, 30, 0, 2, b'a', b'b', 1, 2]);
    assert_eq!(bytes[bytes.len() - 1], 5);
    assert_eq!(m.fixed_header.remaining_length, 30);
}

#[test]
fn short_publish_is_refused() {
    assert_eq!(PublishMessage::from_bytes(vec![0x32, 0, 0]).err(), Some(MqttError::NotEnoughBytes));
    let mut wrong_type = vec![0u8; 20];
    wrong_type[0] = 0x40;
    assert_eq!(PublishMessage::from_bytes(wrong_type).err(), Some(MqttError::InvalidPublishType));
}
