pub mod ack_message;
pub mod mqtt_client_connector;
pub mod mqtt_client_listener;
pub mod mqtt_client_msg_creator;
pub mod mqtt_client_retransmitter;
