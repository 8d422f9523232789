pub mod client;
pub mod messages;
pub mod mqtt_utils;
pub mod server;
