use rustx::mqtt::messages::connect_message::ConnectMessage;

fn create_connect_message() -> ConnectMessage {
    ConnectMessage::new(
        "test_client".to_string(),
        Some("test/topic".to_string()),
        Some("test message".to_string()),
        Some("test_user".to_string()),
        Some("test_password".to_string()),
        0,
    )
}

#[test]
fn test_from_bytes_parsing_fixed_header() {
    let mut connect_message = create_connect_message();
    let bytes = connect_message.to_bytes();
    let new_connect_message = ConnectMessage::from_bytes(&bytes);
    assert!(connect_message.fixed_header == new_connect_message.fixed_header);
}

#[test]
fn test_from_bytes_parsing_variable_header() {
    let mut connect_message = create_connect_message();
    let bytes = connect_message.to_bytes();
    let new_connect_message = ConnectMessage::from_bytes(&bytes);
    assert_eq!(connect_message.variable_header, new_connect_message.variable_header);
}

#[test]
fn test_from_bytes_parsing_payload() {
    let mut connect_message = create_connect_message();
    let bytes = connect_message.to_bytes();
    let new_connect_message = ConnectMessage::from_bytes(&bytes);
    assert_eq!(connect_message.payload, new_connect_message.payload);
}

#[test]
fn test_from_bytes_parsing_payload_get_user_get_passwd() {
    let mut connect_message = create_connect_message();
    assert_eq!(*connect_message.get_user().unwrap(), "test_user".to_string());
    assert_eq!(*connect_message.get_passwd().unwrap(), "test_password".to_string());
    let bytes = connect_message.to_bytes();
    let new_connect_message = ConnectMessage::from_bytes(&bytes);
    assert_eq!(new_connect_message.get_user().unwrap(), "test_user");
    assert_eq!(new_connect_message.get_passwd().unwrap(), "test_password");
}

#[test]
fn test_from_bytes_works_properly_with_none_fields() {
    let mut connect_message = ConnectMessage::new(
        "test_client".to_string(),
        None,
        None,
        Some("test_user".to_string()),
        Some("test_password123".to_string()),
        0,
    );
    let bytes = connect_message.to_bytes();
    let new_connect_message = ConnectMessage::from_bytes(&bytes);
    assert_eq!(connect_message.payload, new_connect_message.payload);
}

#[test]
fn connect_bytes_start_with_type_remaining_length_and_protocol_name() {
    let mut connect_message = create_connect_message();
    let bytes = connect_message.to_bytes();
    assert_eq!(bytes[0], 0x10);
    assert_eq!(bytes[1] as usize, bytes.len() - 2);
    assert_eq!(&bytes[2..7], &[4, b'M', b'Q', b'T', b'T']);
}

#[test]
fn try_from_bytes_refuses_truncated_packet() {
    let mut connect_message = create_connect_message();
    let bytes = connect_message.to_bytes();
    assert!(ConnectMessage::try_from_bytes(&bytes[..bytes.len() - 3]).is_none());
    assert!(ConnectMessage::try_from_bytes(&bytes).is_some());
}

#[test]
fn will_to_publish_needs_topic_and_message() {
    let with_will = create_connect_message();
    let will = with_will.get_will_to_publish().unwrap();
    assert_eq!(will.get_will_msg_content(), "test message");
    assert_eq!(will.get_will_topic(), "test/topic");
    let without = ConnectMessage::new("c".to_string(), None, None, None, None, 0);
    assert!(without.get_will_to_publish().is_none());
    assert_eq!(without.get_client_id().unwrap(), "c");
}
