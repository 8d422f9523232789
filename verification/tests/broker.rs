use rustx::mqtt::messages::connect_message::ConnectMessage;
use rustx::mqtt::messages::packet_type::PacketType;
use rustx::mqtt::messages::publish_message::PublishMessage;
use rustx::mqtt::messages::subscribe_return_code::SubscribeReturnCode;
use rustx::mqtt::mqtt_utils::mqtt_error::MqttError;
use rustx::mqtt::server::message_processor::MessageProcessor;
use rustx::mqtt::server::mqtt_server::MQTTServer;
use rustx::mqtt::server::packet::Packet;
use rustx::mqtt::server::user_state::UserState;
use rustx::publish_flags::PublishFlags;
use rustx::subscribe_message::SubscribeMessage;

fn connect(server: &mut MQTTServer, name: &str) {
    let c = ConnectMessage::new(name.to_string(), None, None, None, None, 0);
    server.add_new_user(name, &c);
}

fn publish(topic: &str, payload: &[u8], t: u128) -> PublishMessage {
    PublishMessage::new_with_timestamp(PublishFlags::new(0, 1, 0).unwrap(), topic, Some(7), payload, t).unwrap()
}

fn last_id(server: &MQTTServer, user: &str, topic: &str) -> u32 {
    let u = server.get_connected_users().iter().find(|u| u.username == user).unwrap();
    u.get_last_id_by_topic(&topic.to_string())
}

fn queue_len(server: &MQTTServer, topic: &str) -> usize {
    server.messages_by_topic.iter().find(|e| e.0 == topic).map(|e| e.1.len()).unwrap_or(0)
}

#[test]
fn publish_reaches_every_subscriber_once() {
    let mut server = MQTTServer::new();
    connect(&mut server, "a");
    connect(&mut server, "b");
    connect(&mut server, "c");
    let sub = SubscribeMessage::new(1, vec![("t".to_string(), 1)]);
    assert_eq!(server.add_topics_to_subscriber("a", &sub), Ok(vec![SubscribeReturnCode::QoS1]));
    assert_eq!(server.add_topics_to_subscriber("b", &sub), Ok(vec![SubscribeReturnCode::QoS1]));
    assert_eq!(server.add_topics_to_subscriber("zzz", &sub), Ok(vec![]));
    let m = publish("t", b"hi", 1);
    let mut out = Vec::new();
    assert_eq!(server.handle_publish_message(&m, &mut out), Ok(()));
    let bytes = m.to_bytes();
    assert_eq!(out, vec![("a".to_string(), bytes.clone()), ("b".to_string(), bytes)]);
    assert_eq!(last_id(&server, "a", "t"), 1);
    assert_eq!(last_id(&server, "c", "t"), 0);
    assert_eq!(queue_len(&server, "t"), 1);
}

#[test]
fn new_subscriber_gets_earlier_messages() {
    let mut server = MQTTServer::new();
    connect(&mut server, "a");
    let mut out = Vec::new();
    let m1 = publish("t", b"1", 1);
    let m2 = publish("t", b"2", 2);
    server.handle_publish_message(&m1, &mut out).unwrap();
    server.handle_publish_message(&m2, &mut out).unwrap();
    assert!(out.is_empty());
    let sub = SubscribeMessage::new(1, vec![("t".to_string(), 1), ("t".to_string(), 1), ("u".to_string(), 0)]);
    server.add_topics_to_subscriber("a", &sub).unwrap();
    server.send_preexisting_msgs_to_new_subscriber("a", &sub, &mut out).unwrap();
    assert_eq!(out, vec![("a".to_string(), m1.to_bytes()), ("a".to_string(), m2.to_bytes())]);
    assert_eq!(last_id(&server, "a", "t"), 2);
}

#[test]
fn old_messages_are_trimmed_past_fifty_keeping_pending() {
    let mut server = MQTTServer::new();
    connect(&mut server, "a");
    connect(&mut server, "b");
    let sub = SubscribeMessage::new(1, vec![("t".to_string(), 1)]);
    server.add_topics_to_subscriber("a", &sub).unwrap();
    server.add_topics_to_subscriber("b", &sub).unwrap();
    server.set_user_as_temporally_disconnected("b").unwrap();
    let mut out = Vec::new();
    let first = publish("t", b"0", 0);
    // b is disconnected: delivery stops at b with an error, messages are still kept
    assert_eq!(server.handle_publish_message(&first, &mut out), Err(MqttError::UserNotConnected));
    assert_eq!(queue_len(&server, "t"), 1);
    // reconnect b: it receives the kept message
    out.clear();
    assert_eq!(server.manage_possible_reconnecting_or_duplicate_user("b", &mut out), Ok(true));
    assert_eq!(out, vec![("b".to_string(), first.to_bytes())]);
    for i in 1..60u128 {
        server.handle_publish_message(&publish("t", b"x", i), &mut out).unwrap();
    }
    // both caught up: trimming drops everything delivered once past 50
    assert!(queue_len(&server, "t") <= 51);
    assert_eq!(last_id(&server, "a", "t") as usize, queue_len(&server, "t"));
    assert_eq!(last_id(&server, "b", "t") as usize, queue_len(&server, "t"));
}

#[test]
fn trimming_resets_indices_and_keeps_delivering() {
    let mut server = MQTTServer::new();
    connect(&mut server, "a");
    connect(&mut server, "b");
    let sub = SubscribeMessage::new(1, vec![("t".to_string(), 1)]);
    server.add_topics_to_subscriber("a", &sub).unwrap();
    let mut out = Vec::new();
    for i in 0..50u128 {
        server.handle_publish_message(&publish("t", b"x", i), &mut out).unwrap();
    }
    assert_eq!(queue_len(&server, "t"), 50);
    assert_eq!(last_id(&server, "a", "t"), 50);
    server.handle_publish_message(&publish("t", b"x", 50), &mut out).unwrap();
    // past 50 messages, everything that every subscriber received is dropped
    assert_eq!(queue_len(&server, "t"), 0);
    assert_eq!(last_id(&server, "a", "t"), 0);
    out.clear();
    let m = publish("t", b"after", 51);
    server.handle_publish_message(&m, &mut out).unwrap();
    assert_eq!(out, vec![("a".to_string(), m.to_bytes())]);
    assert_eq!(last_id(&server, "a", "t"), 1);
    // a topic nobody is subscribed to is emptied past 50 messages
    for i in 0..51u128 {
        server.handle_publish_message(&publish("nobody", b"x", i), &mut out).unwrap();
    }
    assert_eq!(queue_len(&server, "nobody"), 0);
}

#[test]
fn duplicate_active_user_is_sent_disconnect() {
    let mut server = MQTTServer::new();
    connect(&mut server, "a");
    let mut out = Vec::new();
    assert_eq!(server.manage_possible_reconnecting_or_duplicate_user("a", &mut out), Ok(false));
    assert_eq!(out, vec![("a".to_string(), vec![0xE0])]);
    out.clear();
    assert_eq!(server.manage_possible_reconnecting_or_duplicate_user("nobody", &mut out), Ok(false));
    assert!(out.is_empty());
}

#[test]
fn users_are_added_replaced_and_removed() {
    let mut server = MQTTServer::new();
    connect(&mut server, "a");
    connect(&mut server, "a");
    assert_eq!(server.get_connected_users().len(), 1);
    server.set_user_as_temporally_disconnected("a").unwrap();
    assert_eq!(*server.get_connected_users()[0].get_state(), UserState::TemporallyDisconnected);
    assert!(!server.get_connected_users()[0].is_not_disconnected());
    server.remove_user("a");
    assert!(server.get_connected_users().is_empty());
}

#[test]
fn will_message_is_published_on_disconnection() {
    let mut server = MQTTServer::new();
    let c = ConnectMessage::new("w".to_string(), Some("wt".to_string()), Some("bye".to_string()), None, None, 1);
    server.add_new_user("w", &c);
    connect(&mut server, "s");
    let sub = SubscribeMessage::new(1, vec![("wt".to_string(), 1)]);
    server.add_topics_to_subscriber("s", &sub).unwrap();
    let mut out = Vec::new();
    assert_eq!(server.handle_client_disconnection("w", &mut out), Ok(()));
    assert_eq!(out.len(), 1);
    assert_eq!(out[0].0, "s");
    let delivered = PublishMessage::from_bytes(out[0].1.clone()).unwrap();
    assert_eq!(delivered.get_topic(), "wt");
    assert_eq!(delivered.get_payload(), b"bye".to_vec());
    assert_eq!(delivered.get_packet_id(), Some(1000));
    out.clear();
    assert_eq!(server.handle_disconnect("w", &mut out), Ok(()));
    assert_eq!(out.len(), 1);
    assert_eq!(server.get_connected_users().len(), 1);
}

#[test]
fn will_with_qos_zero_is_refused() {
    let mut server = MQTTServer::new();
    let c = ConnectMessage::new("w".to_string(), Some("wt".to_string()), Some("bye".to_string()), None, None, 0);
    server.add_new_user("w", &c);
    let mut out = Vec::new();
    assert_eq!(server.publish_users_will_message("w", &mut out), Err(MqttError::PacketIdentifierWithQos0));
    assert_eq!(server.publish_users_will_message("nobody", &mut out), Ok(()));
}

#[test]
fn acks_are_written_to_their_user() {
    let mut server = MQTTServer::new();
    connect(&mut server, "a");
    let mut out = Vec::new();
    server.send_suback_to("a", &vec![SubscribeReturnCode::QoS1], &mut out).unwrap();
    server.send_puback_to("a", &publish("t", b"", 0), &mut out).unwrap();
    server.send_puback_to("nobody", &publish("t", b"", 0), &mut out).unwrap();
    assert_eq!(out, vec![("a".to_string(), vec![0x90, 4, 0, 0, 0, 1]), ("a".to_string(), vec![0x40, 2, 0, 7])]);
    server.set_user_as_temporally_disconnected("a").unwrap();
    assert_eq!(server.send_suback_to("a", &vec![], &mut out), Err(MqttError::UserNotConnected));
}

#[test]
fn message_processor_applies_packets() {
    let mut server = MQTTServer::new();
    connect(&mut server, "a");
    connect(&mut server, "b");
    let mut processor = MessageProcessor::new(server);
    let mut out = Vec::new();
    let sub = SubscribeMessage::new(3, vec![("topic1".to_string(), 1)]);
    processor.process_packet(&Packet::new(PacketType::Subscribe, sub.to_bytes(), "b".to_string()), &mut out).unwrap();
    assert_eq!(out, vec![("b".to_string(), vec![0x90, 4, 0, 0, 0, 1])]);
    out.clear();
    let m = publish("topic1", b"hello", 9);
    processor.process_packet(&Packet::new(PacketType::Publish, m.to_bytes(), "a".to_string()), &mut out).unwrap();
    assert_eq!(out, vec![("a".to_string(), vec![0x40, 2, 0, 7]), ("b".to_string(), m.to_bytes())]);
    out.clear();
    processor.process_packet(&Packet::new(PacketType::Puback, vec![0x40, 2, 0, 7], "b".to_string()), &mut out).unwrap();
    processor.process_packet(&Packet::new(PacketType::Publish, vec![0x32, 1], "b".to_string()), &mut out).unwrap();
    assert!(out.is_empty());
}

#[test]
fn publish_from_a_disconnected_sender_changes_nothing() {
    let mut server = MQTTServer::new();
    connect(&mut server, "a");
    connect(&mut server, "b");
    let mut processor = MessageProcessor::new(server);
    let mut out = Vec::new();
    let sub = SubscribeMessage::new(3, vec![("topic1".to_string(), 1)]);
    processor.process_packet(&Packet::new(PacketType::Subscribe, sub.to_bytes(), "b".to_string()), &mut out).unwrap();
    out.clear();
    processor.mqtt_server.set_user_as_temporally_disconnected("a").unwrap();
    let m = publish("topic1", b"hello", 9);
    processor.process_packet(&Packet::new(PacketType::Publish, m.to_bytes(), "a".to_string()), &mut out).unwrap();
    assert!(out.is_empty());
    processor.process_packet(&Packet::new(PacketType::Publish, m.to_bytes(), "nobody".to_string()), &mut out).unwrap();
    assert_eq!(out, vec![("b".to_string(), m.to_bytes())]);
}

#[test]
fn delivery_index_check() {
    let mut server = MQTTServer::new();
    connect(&mut server, "a");
    let user = &server.get_connected_users()[0];
    let q: Vec<Vec<u8>> = vec![vec![1], vec![2]];
    assert_eq!(rustx::mqtt::server::mqtt_server::check_subscription_and_calculate_diff(user, &"t".to_string(), &q), Ok(-1));
    let sub = SubscribeMessage::new(1, vec![("t".to_string(), 1)]);
    server.add_topics_to_subscriber("a", &sub).unwrap();
    let user = &server.get_connected_users()[0];
    assert_eq!(rustx::mqtt::server::mqtt_server::check_subscription_and_calculate_diff(user, &"t".to_string(), &q), Ok(2));
    assert!(server.topic_has_room(&"t".to_string()));
    assert_eq!(server.calculate_min_last_id_among_users_for(&"t".to_string()), Ok(0));
    assert_eq!(MQTTServer::new().calculate_min_last_id_among_users_for(&"t".to_string()), Err(MqttError::NoUsers));
}
