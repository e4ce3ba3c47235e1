//! Notifications sent to the client.

pub mod show_foreign_script_warning;
