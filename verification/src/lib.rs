//! Project model of the WitcherScript IDE: script contents, their manifests,
//! the graph of dependencies between contents, source trees and the
//! bookkeeping that the language server does around them.

pub mod ordering;
pub mod paths;
pub mod text;
pub mod manifest;
pub mod redkit;
pub mod file_error;
pub mod content;
pub mod content_scanner;
pub mod content_graph;
pub mod source_mask;
pub mod config;
pub mod script_analysis;
pub mod notifications;
pub mod messaging;
pub mod providers;
pub mod source_tree;
pub mod reporting;
