//! Notifications about scripts.

pub mod did_finish_initial_indexing;
pub mod did_start_script_parsing;
pub mod did_finish_script_parsing;
