//! The Feishu channel: frames, events, accounts and outbound messages.

pub mod api;
pub mod channel_laws;
pub mod chunks;
pub mod config;
pub mod event_laws;
pub mod events;
pub mod outbound;
pub mod plugin;
pub mod ws;
pub mod ws_frame;
