pub mod broker_errors;
pub mod codec;
pub mod fixed_header;
pub mod mqtt_error;
pub mod text;
pub mod utils;
pub mod will_message;
pub mod will_message_utils;
