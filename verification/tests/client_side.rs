use rustx::mqtt::client::ack_message::ACKMessage;
use rustx::mqtt::client::mqtt_client_connector::{complete_connack_read_and_analyze_it, wait_for_connack_step, ConnackWait, ConnectStep};
use rustx::mqtt::client::mqtt_client_listener::{read_a_message, ListenerAction};
use rustx::mqtt::client::mqtt_client_retransmitter::{wait_for_ack_step, AckStep, AckWait, MQTTClientRetransmitter};
use rustx::puback_message::PubAckMessage;
use rustx::mqtt::messages::publish_message::PublishMessage;
use rustx::mqtt::mqtt_utils::mqtt_error::MqttError;
use rustx::publish_flags::PublishFlags;

#[test]
fn connect_is_resent_five_times_then_given_up() {
    let mut remaining = 5u8;
    let mut resends = 0;
    loop {
        let (next, step) = wait_for_connack_step(remaining, &ConnackWait::TimedOut);
        remaining = next;
        match step {
            Ok(ConnectStep::Resend) => resends += 1,
            Ok(ConnectStep::Connected) => panic!("no connack arrived"),
            Err(e) => {
                assert_eq!(e, MqttError::MaxRetriesReached);
                break;
            }
        }
    }
    assert_eq!(resends, 5);
}

#[test]
fn connack_decides_the_connection() {
    assert_eq!(wait_for_connack_step(3, &ConnackWait::Received(vec![0x20, 2, 0, 0])), (3, Ok(ConnectStep::Connected)));
    assert_eq!(wait_for_connack_step(3, &ConnackWait::Received(vec![0x20, 2, 0, 5])), (3, Err(MqttError::ConnectionRefused)));
    assert_eq!(wait_for_connack_step(3, &ConnackWait::Received(vec![0x30, 2, 0, 0])), (3, Err(MqttError::WrongPacketType)));
    assert_eq!(complete_connack_read_and_analyze_it(&vec![0x20, 2]), Err(MqttError::NotEnoughBytes));
    assert_eq!(complete_connack_read_and_analyze_it(&vec![0x20, 2, 0, 0]), Ok(()));
}

#[test]
fn listener_reacts_to_each_packet_type() {
    let m = PublishMessage::new_with_timestamp(PublishFlags::new(0, 1, 0).unwrap(), "t", Some(5), b"p", 3).unwrap();
    match read_a_message(m.to_bytes()) {
        Ok(ListenerAction::Deliver(got, ack)) => {
            assert_eq!(got, m);
            assert_eq!(ack, vec![0x40, 2, 0, 5]);
        }
        _ => panic!("expected a delivery"),
    }
    match read_a_message(vec![0x40, 2, 0, 5]) {
        Ok(ListenerAction::Acknowledge(ACKMessage::PubAck(a))) => assert_eq!(a.packet_id, 5),
        _ => panic!("expected a puback"),
    }
    match read_a_message(vec![0x90, 4, 0, 6, 0, 1]) {
        Ok(ListenerAction::Acknowledge(ack)) => assert_eq!(ack.get_packet_id(), Some(6)),
        _ => panic!("expected a suback"),
    }
    assert!(matches!(read_a_message(vec![0xE0, 0]), Ok(ListenerAction::Shutdown)));
    assert!(matches!(read_a_message(vec![0xC0, 0]), Err(MqttError::UnknownPacketType)));
    assert!(matches!(read_a_message(vec![0x40, 2]), Err(MqttError::NotEnoughBytes)));
    assert!(matches!(read_a_message(vec![0x32, 2, 0]), Err(MqttError::NotEnoughBytes)));
}

#[test]
fn retransmitter_receives_what_the_listener_sends() {
    let (retransmitter, ack_tx) = MQTTClientRetransmitter::new();
    ack_tx.send(ACKMessage::PubAck(PubAckMessage::new(7, 0))).unwrap();
    let ack = retransmitter.ack_rx.recv().unwrap();
    assert_eq!(ack.get_packet_id(), Some(7));
}

#[test]
fn ack_wait_resends_then_gives_up() {
    let (r, s) = wait_for_ack_step(7, 1, &AckWait::Received(ACKMessage::PubAck(PubAckMessage::new(3, 0))));
    assert_eq!((r, s), (1, Ok(AckStep::KeepWaiting)));
    let (r, s) = wait_for_ack_step(7, 1, &AckWait::Received(ACKMessage::PubAck(PubAckMessage::new(7, 0))));
    assert_eq!((r, s), (1, Ok(AckStep::Done)));
    let (r, s) = wait_for_ack_step(7, 1, &AckWait::TimedOut);
    assert_eq!((r, s), (0, Ok(AckStep::Resend)));
    let (r, s) = wait_for_ack_step(7, 0, &AckWait::TimedOut);
    assert_eq!((r, s), (0, Err(MqttError::MaxRetriesReached)));
    assert_eq!(wait_for_ack_step(7, 2, &AckWait::ListenerStopped), (2, Ok(AckStep::Done)));
}

#[test]
fn ack_is_resent_five_times_then_given_up() {
    let mut remaining = rustx::mqtt::client::mqtt_client_connector::AMOUNT_OF_RETRIES;
    let mut resends = 0;
    loop {
        let (next, step) = wait_for_ack_step(9, remaining, &AckWait::TimedOut);
        remaining = next;
        match step {
            Ok(AckStep::Resend) => resends += 1,
            Ok(other) => panic!("unexpected step {:?}", other),
            Err(e) => {
                assert_eq!(e, MqttError::MaxRetriesReached);
                break;
            }
        }
    }
    assert_eq!(resends, 5);
}
