//! Custom notifications between the server and the client.

pub mod client;
pub mod projects;
pub mod scripts;
