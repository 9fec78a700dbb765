//! Feishu channel integration, gateway channel logic and web tools.

pub mod assoc;
pub mod channel;
pub mod clock;
pub mod encoding;
pub mod feishu;
pub mod gateway;
pub mod json;
pub mod text;
pub mod tools;
pub mod web_url;
pub mod wire;
