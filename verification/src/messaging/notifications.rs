//! Custom notifications.

pub mod client;
