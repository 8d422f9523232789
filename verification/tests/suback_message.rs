use rustx::mqtt::messages::subscribe_return_code::SubscribeReturnCode;
use rustx::mqtt::mqtt_utils::mqtt_error::MqttError;
use rustx::suback_message::SubAckMessage;

#[test]
fn test_1_suback_msg_se_crea_con_tipo_y_flag_adecuados() {
    let packet_id: u16 = 1;
    let return_codes = vec![SubscribeReturnCode::QoS1];
    let suback_msg = SubAckMessage::new(packet_id, return_codes);
    assert_eq!(suback_msg.message_type, 9);
    assert_eq!(suback_msg.reserved_flags, 0);
}

#[test]
fn test_2_suback_msg_se_pasa_a_bytes_y_se_interpreta_correctamente() {
    let packet_id: u16 = 1;
    let return_codes = vec![SubscribeReturnCode::QoS1];
    let suback_msg = SubAckMessage::new(packet_id, return_codes);
    let bytes_msg = suback_msg.to_bytes();
    let msg_reconstruido = SubAckMessage::from_bytes(bytes_msg);
    assert_eq!(msg_reconstruido.unwrap(), suback_msg);
}

#[test]
fn test_3_suback_msg_se_pasa_a_bytes_e_interpreta_correctamente_con_varios_ret_codes() {
    let packet_id: u16 = 1;
    let mut return_codes = vec![SubscribeReturnCode::QoS1];
    return_codes.push(SubscribeReturnCode::QoS1);
    let suback_msg = SubAckMessage::new(packet_id, return_codes);
    let bytes_msg = suback_msg.to_bytes();
    let msg_reconstruido = SubAckMessage::from_bytes(bytes_msg);
    assert_eq!(msg_reconstruido.unwrap(), suback_msg);
}

#[test]
fn suback_bytes_are_exact() {
    let m = SubAckMessage::new(0x0203, vec![SubscribeReturnCode::QoS2, SubscribeReturnCode::Failure]);
    assert_eq!(m.remaining_length(), 6);
    assert_eq!(m.to_bytes(), vec![0x90, 6, 2, 3, 0, 2, 0, 0x80]);
    assert_eq!(m.get_packet_id(), 0x0203);
}

#[test]
fn suback_invalid_code_and_type_are_refused() {
    assert_eq!(SubAckMessage::from_bytes(vec![0x90, 4, 0, 1, 0, 7]).err(), Some(MqttError::InvalidSubscribeReturnCode));
    assert_eq!(SubAckMessage::from_bytes(vec![0x80, 4, 0, 1, 0, 1]).err(), Some(MqttError::WrongPacketType));
    assert_eq!(SubscribeReturnCode::from_bytes(0x80), Ok(SubscribeReturnCode::Failure));
}
