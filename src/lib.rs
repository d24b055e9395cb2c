//! A mock push-notification ingestion service: a decoder for the binary
//! provider frame format, and a message-passing holder of the decoded
//! notifications.
pub mod hex;
pub mod json;
pub mod frame;
pub mod notifications;
pub mod channel;
pub mod stateholder;
pub mod connection;
pub mod servers;
pub mod laws;
