//! Notifications about projects.

pub mod did_import_scripts;
pub mod did_change_content_graph;
