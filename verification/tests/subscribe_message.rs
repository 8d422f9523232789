use rustx::subscribe_message::{subs_msg_from_bytes, SubscribeMessage};

#[test]
fn test_1_subscribe_msg_se_crea_con_tipo_y_flag_adecuados() {
    let packet_id: u16 = 1;
    let topics_to_subscribe: Vec<(String, u8)> = vec![(String::from("topic1"), 1)];
    let subscribe_msg = SubscribeMessage::new(packet_id, topics_to_subscribe);
    assert_eq!(subscribe_msg.packet_type, 8);
    assert_eq!(subscribe_msg.flags, 2);
}

#[test]
fn test_2_subscribe_msg_s() {
    let packet_id: u16 = 1;
    let topics_to_subscribe: Vec<(String, u8)> = vec![(String::from("topic1"), 1)];
    let subscribe_msg = SubscribeMessage::new(packet_id, topics_to_subscribe);
    let bytes_msg = subscribe_msg.to_bytes();
    let msg_reconstruido = subs_msg_from_bytes(bytes_msg);
    assert_eq!(msg_reconstruido.unwrap(), subscribe_msg);
}

#[test]
fn subscribe_bytes_are_exact() {
    let m = SubscribeMessage::new(0x0102, vec![("ab".to_string(), 2), ("cde".to_string(), 0)]);
    assert_eq!(m.to_bytes(), vec![8, 2, 1, 2, 0, 2, 0, 2, 2, 0, 3, 0]);
}

#[test]
fn subscribe_reading_keeps_only_packet_identifier() {
    let m = subs_msg_from_bytes(vec![8, 2, 0, 9, 0, 1, 0, 5, 2]).unwrap();
    assert_eq!(m.packet_identifier, 9);
    assert_eq!(m.topic_filters, vec![("topic1".to_string(), 1)]);
}
