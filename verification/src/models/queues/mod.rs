pub mod messages;
pub mod messages_incoming;
pub mod messages_outgoing;
