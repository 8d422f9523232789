use rustx::puback_message::PubAckMessage;

#[test]
fn test_1a_puback_msg_caso_success_tiene_rem_len_acorde() {
    let msg = PubAckMessage::new(1, 0);
    assert_eq!(msg.remaining_length(), 2);
}

#[test]
fn test_1b_puback_msg_caso_error_tiene_rem_len_acorde() {
    let msg = PubAckMessage::new(1, 8);
    assert_eq!(msg.remaining_length(), 3);
}

#[test]
fn test_2_puback_msg_se_pasa_a_bytes_y_reconstruye_correctamente() {
    let msg = PubAckMessage::new(1, 0);
    let msg_bytes = msg.to_bytes();
    let msg_reconstruido = PubAckMessage::msg_from_bytes(msg_bytes);
    assert_eq!(msg_reconstruido.unwrap(), msg);
}

#[test]
fn puback_bytes_are_exact() {
    assert_eq!(PubAckMessage::new(0x0102, 0).to_bytes(), vec![0x40, 2, 1, 2]);
    assert_eq!(PubAckMessage::new(0x0102, 8).to_bytes(), vec![0x40, 3, 1, 2, 8]);
    assert_eq!(PubAckMessage::new(7, 0).get_packet_id(), 7);
}

#[test]
fn puback_reason_code_is_read_back() {
    let msg = PubAckMessage::new(1, 8);
    let read = PubAckMessage::msg_from_bytes(msg.to_bytes()).unwrap();
    assert_eq!(read, msg);
    let read = PubAckMessage::msg_from_bytes(vec![0x40, 3, 0, 9, 8]).unwrap();
    assert_eq!(read.packet_id, 9);
    assert_eq!(read.puback_reason_code, 8);
}

#[test]
fn puback_missing_its_reason_code_is_refused() {
    assert_eq!(PubAckMessage::msg_from_bytes(vec![0x40, 3, 0, 9]), Err(rustx::mqtt::mqtt_utils::mqtt_error::MqttError::NotEnoughBytes));
}
