//! Messages of the server's custom protocol.

pub mod notifications;
pub mod custom_methods;
