pub mod message;
pub mod message_context;
