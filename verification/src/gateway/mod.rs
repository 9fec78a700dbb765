//! The gateway's side of the channels: commands, sessions, hand-offs and attachments.

pub mod attachment_store;
pub mod chat;
pub mod chat_laws;
pub mod command_laws;
pub mod commands;
pub mod dispatch;
pub mod host;
pub mod laws;
pub mod pairing;
pub mod report_laws;
pub mod reports;
pub mod session_laws;
pub mod sessions;
pub mod store_laws;
pub mod voice;
