use rustx::mqtt::messages::connack_session_present::SessionPresent;
use rustx::mqtt::messages::connect_message::ConnectMessage;
use rustx::mqtt::messages::connect_return_code::ConnectReturnCode;
use rustx::mqtt::server::client_authenticator::{credentials_from_lines, parse_credentials_line, AuthenticateClient};
use rustx::mqtt::server::message_broker_server::load_port;
use rustx::mqtt::server::mqtt_server::MQTTServer;
use rustx::mqtt::mqtt_utils::broker_errors::BrokerErrors;

fn creds() -> Vec<(String, String)> {
    vec![("usuario0".to_string(), "rustx123".to_string()), ("u1".to_string(), "p1".to_string())]
}

#[test]
fn credentials_are_checked_as_pairs() {
    let a = AuthenticateClient::new();
    let (u, p, q) = ("u1".to_string(), "p1".to_string(), "rustx123".to_string());
    assert!(a.verify_authentication(Some(&u), Some(&p), &creds()));
    assert!(!a.verify_authentication(Some(&u), Some(&q), &creds()));
    assert!(!a.verify_authentication(Some(&u), None, &creds()));
    assert!(a.is_guest_mode_active(None, None));
    assert!(!a.is_guest_mode_active(Some(&u), None));
}

#[test]
fn session_answer_follows_credentials() {
    let a = AuthenticateClient::new();
    let guest = ConnectMessage::new("g".to_string(), None, None, None, None, 0);
    let (ok, ack) = a.was_the_session_created_succesfully(&guest, &creds()).unwrap();
    assert!(ok);
    assert_eq!(ack.connect_return_code, ConnectReturnCode::ConnectionAccepted);
    assert_eq!(ack.session_present, SessionPresent::NotPresentInLastSession);
    let bad = ConnectMessage::new("b".to_string(), None, None, Some("u1".to_string()), Some("x".to_string()), 0);
    let (ok, ack) = a.was_the_session_created_succesfully(&bad, &creds()).unwrap();
    assert!(!ok);
    assert_eq!(ack.to_bytes(), vec![0x20, 2, 0, 5]);
}

#[test]
fn valid_connection_registers_the_user() {
    let a = AuthenticateClient::new();
    let mut server = MQTTServer::new();
    let mut out = Vec::new();
    let c = ConnectMessage::new("dron1".to_string(), None, None, Some("usuario0".to_string()), Some("rustx123".to_string()), 0);
    let (ok, ack) = a.is_it_a_valid_connection(&c, &creds(), &mut server, &mut out).unwrap();
    assert!(ok);
    assert_eq!(ack.to_bytes(), vec![0x20, 2, 0, 0]);
    assert_eq!(server.get_connected_users()[0].get_username(), "dron1");
    let bad = ConnectMessage::new("x".to_string(), None, None, Some("nope".to_string()), Some("nope".to_string()), 0);
    let (ok, _) = a.is_it_a_valid_connection(&bad, &creds(), &mut server, &mut out).unwrap();
    assert!(!ok);
    assert_eq!(server.get_connected_users().len(), 1);
}

#[test]
fn credentials_lines_need_two_words() {
    assert_eq!(parse_credentials_line("  alice \t secret "), Some(("alice".to_string(), "secret".to_string())));
    assert_eq!(parse_credentials_line("alice"), None);
    assert_eq!(parse_credentials_line("a b c"), None);
    let lines = vec!["a b".to_string(), "".to_string(), "c d e".to_string(), "e\u{3000}f".to_string()];
    assert_eq!(credentials_from_lines(&lines), vec![("a".to_string(), "b".to_string()), ("e".to_string(), "f".to_string())]);
}

#[test]
fn port_is_loaded_from_arguments() {
    assert_eq!(load_port(&vec!["srv".to_string(), "9090".to_string()]), Ok(("127.0.0.1".to_string(), 9090)));
    assert_eq!(load_port(&vec!["srv".to_string()]), Err(BrokerErrors::ArgsLengthError));
    assert_eq!(load_port(&vec!["srv".to_string(), "70000".to_string()]), Err(BrokerErrors::InvalidPortError));
    assert_eq!(load_port(&vec!["srv".to_string(), "+80".to_string()]), Ok(("127.0.0.1".to_string(), 80)));
}

#[test]
fn reconnecting_user_keeps_its_session_and_duplicates_are_disconnected() {
    let auth = AuthenticateClient::new();
    let mut server = MQTTServer::new();
    let c = ConnectMessage::new("a".to_string(), Some("wt".to_string()), Some("bye".to_string()), None, None, 1);
    let mut out = Vec::new();
    let (ok, _) = auth.is_it_a_valid_connection(&c, &creds(), &mut server, &mut out).unwrap();
    assert!(ok);
    let w = server.get_connected_users()[0].will_message.as_ref().unwrap();
    assert_eq!((w.will_message_content.as_str(), w.will_topic.as_str(), w.qos), ("bye", "wt", 1));
    let sub = rustx::subscribe_message::SubscribeMessage::new(1, vec![("t".to_string(), 1)]);
    server.add_topics_to_subscriber("a", &sub).unwrap();
    // an active duplicate is sent a DISCONNECT and replaced by a fresh user
    auth.is_it_a_valid_connection(&c, &creds(), &mut server, &mut out).unwrap();
    assert_eq!(out, vec![("a".to_string(), vec![0xE0])]);
    assert!(server.get_connected_users()[0].topics.is_empty());
    // a temporarily disconnected user keeps its subscriptions when it comes back
    server.add_topics_to_subscriber("a", &sub).unwrap();
    server.set_user_as_temporally_disconnected("a").unwrap();
    out.clear();
    auth.is_it_a_valid_connection(&c, &creds(), &mut server, &mut out).unwrap();
    assert_eq!(server.get_connected_users().len(), 1);
    assert_eq!(server.get_connected_users()[0].topics, vec!["t".to_string()]);
    assert!(out.is_empty());
}
