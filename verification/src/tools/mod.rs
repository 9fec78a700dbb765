//! The web tools: searching and reading.

pub mod accounts;
pub mod net;
pub mod ranking;
pub mod read_laws;
pub mod request_laws;
pub mod requests;
pub mod search_laws;
pub mod web_cn_search;
pub mod web_read;
