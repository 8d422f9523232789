pub mod app_type;
pub mod will_content;
pub mod will_message;
