pub mod connack_message;
pub mod connack_session_present;
pub mod connect_fixed_header;
pub mod connect_flags;
pub mod connect_message;
pub mod connect_payload;
pub mod connect_return_code;
pub mod connect_variable_header;
pub mod disconnect_fixed_header;
pub mod disconnect_message;
pub mod message;
pub mod packet_type;
pub mod publish_fixed_header;
pub mod publish_message;
pub mod publish_payload;
pub mod subscribe_return_code;
