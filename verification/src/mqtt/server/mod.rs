pub mod client_authenticator;
pub mod disconnect_reason;
pub mod entries;
pub mod incoming_connections;
pub mod message_broker_server;
pub mod message_processor;
pub mod mqtt_server;
pub mod packet;
pub mod user;
pub mod user_state;
