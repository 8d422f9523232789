use rustx::mqtt::client::ack_message::ACKMessage;
use rustx::mqtt::client::mqtt_client_msg_creator::MessageCreator;
use rustx::mqtt::messages::connack_message::ConnackMessage;
use rustx::mqtt::messages::connack_session_present::SessionPresent;
use rustx::mqtt::messages::connect_return_code::ConnectReturnCode;
use rustx::mqtt::messages::disconnect_message::DisconnectMessage;
use rustx::mqtt::messages::packet_type::PacketType;
use rustx::mqtt::mqtt_utils::broker_errors::BrokerErrors;
use rustx::mqtt::mqtt_utils::fixed_header::FixedHeader;
use rustx::mqtt::mqtt_utils::mqtt_error::MqttError;
use rustx::mqtt::mqtt_utils::utils::is_disconnect_msg;
use rustx::puback_message::PubAckMessage;
use rustx::suback_message::SubAckMessage;
use rustx::unsuback_message::Unsuback;
use rustx::mqtt::server::packet::Packet;
use rustx::mqtt::messages::publish_message::PublishMessage;
use rustx::mqtt::mqtt_utils::utils::puback_to_send;
use rustx::publish_flags::PublishFlags;

#[test]
fn disconnect_is_one_byte_and_reads_back() {
    let d = DisconnectMessage::new();
    assert_eq!(d.to_bytes(), vec![0xE0]);
    assert_eq!(DisconnectMessage::from_bytes(&d.to_bytes()), d);
    assert_eq!(DisconnectMessage::from_bytes(&[0xE5]).fixed_header.reserved, 5);
}

#[test]
fn connect_return_codes_roundtrip() {
    for b in 0u8..=255 {
        match ConnectReturnCode::from_byte([b]) {
            Ok(c) => assert_eq!(c.to_byte(), [b]),
            Err(e) => {
                assert_eq!(e, MqttError::InvalidConnectReturnCode);
                assert!(b > 5 && b != 0x80);
            }
        }
    }
    assert_eq!(ConnectReturnCode::UnspecifiedError.to_byte(), [0x80]);
}

#[test]
fn connack_bytes_and_reading() {
    let ack = ConnackMessage::new(SessionPresent::NotPresentInLastSession, ConnectReturnCode::NotAuthorized);
    assert_eq!(ack.to_bytes(), vec![0x20, 0x02, 0x00, 0x05]);
    assert_eq!(ConnackMessage::from_bytes(&ack.to_bytes()), Ok(ack));
    assert_eq!(ConnackMessage::from_bytes(&[0x20, 2, 1]), Err(MqttError::NotEnoughBytes));
    assert_eq!(ConnackMessage::from_bytes(&[0x30, 2, 1, 0]), Err(MqttError::WrongPacketType));
    assert_eq!(ConnackMessage::from_bytes(&[0x20, 2, 1, 9]), Err(MqttError::InvalidConnectReturnCode));
    let read = ConnackMessage::from_bytes(&[0x20, 2, 1, 0]).unwrap();
    assert_eq!(read.get_session_present(), SessionPresent::PresentInLastSession);
    assert_eq!(read.get_connect_return_code(), ConnectReturnCode::ConnectionAccepted);
}

#[test]
fn fixed_header_fields() {
    let h = FixedHeader::from_bytes(vec![0xE0, 0, 7]);
    assert_eq!(FixedHeader::fixed_header_len(), 2);
    assert_eq!(h.get_message_type_byte(), 14);
    assert_eq!(h.get_message_type(), PacketType::Disconnect);
    assert_eq!(h.get_rem_len(), 0);
    assert!(h.is_not_null());
    assert!(is_disconnect_msg(&h));
    assert_eq!(h.to_bytes(), vec![0xE0, 0]);
    let null = FixedHeader::from_bytes(vec![0, 0]);
    assert!(!null.is_not_null());
    assert!(!is_disconnect_msg(&FixedHeader::from_bytes(vec![0x30, 4])));
    assert_eq!(FixedHeader::from_bytes(vec![0xF0, 4]).get_message_type(), PacketType::Reserved);
}

#[test]
fn message_creator_hands_out_consecutive_ids() {
    let mut creator = MessageCreator::new();
    let p = creator.create_publish_msg("t", b"x", 1).unwrap();
    assert_eq!(p.get_packet_id(), Some(1));
    let s = creator.create_subscribe_msg(vec![("t".to_string(), 1)]).unwrap();
    assert_eq!(s.packet_identifier, 2);
    let d = creator.create_disconnect_msg().unwrap();
    assert_eq!(d, DisconnectMessage::new());
    assert_eq!(creator.create_publish_msg("t", b"x", 0).err(), Some(MqttError::PacketIdentifierWithQos0));
    assert_eq!(creator.create_publish_msg("t", b"x", 3).err(), Some(MqttError::InvalidPublishFlags));
    let s2 = creator.create_subscribe_msg(vec![]).unwrap();
    assert_eq!(s2.packet_identifier, 5);
}

#[test]
fn ack_message_packet_id() {
    assert_eq!(ACKMessage::PubAck(PubAckMessage::new(3, 0)).get_packet_id(), Some(3));
    assert_eq!(ACKMessage::SubAck(SubAckMessage::new(4, vec![])).get_packet_id(), Some(4));
}

#[test]
fn unsuback_fields() {
    let u = Unsuback::new(1, 2);
    assert_eq!(u.fixed_header.message_type, 11);
    assert_eq!(u.fixed_header.remaining_length, 2);
    assert_eq!(u.variable_header.packet_type_identifier_lsb, 2);
}

#[test]
fn broker_error_messages() {
    assert_eq!(BrokerErrors::InvalidPortError.message(), "El puerto ingresado no es válido");
    assert_eq!(BrokerErrors::DisconnectError.message(), "Error al terminar la conexion");
}

#[test]
fn packet_getters() {
    let p = Packet::new(PacketType::Puback, vec![1, 2], "u".to_string());
    assert_eq!(p.get_message_type(), PacketType::Puback);
    assert_eq!(p.get_msg_bytes(), vec![1, 2]);
    assert_eq!(p.get_username(), "u");
}

#[test]
fn puback_owed_only_with_packet_id() {
    let with = PublishMessage::new_with_timestamp(PublishFlags::new(0, 1, 0).unwrap(), "t", Some(3), b"", 0).unwrap();
    assert_eq!(puback_to_send(&with), Some(PubAckMessage::new(3, 0)));
    let without = PublishMessage::new_with_timestamp(PublishFlags::new(0, 0, 0).unwrap(), "t", None, b"", 0).unwrap();
    assert_eq!(puback_to_send(&without), None);
}
