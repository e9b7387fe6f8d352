//! The control API: its requests and answers, the state it shows, and who may ask.

pub mod agent;
pub mod handlers;
pub mod identity;
pub mod protocol;
pub mod server;
pub mod tls;
pub mod types;
