//! Projects made with the REDkit editor.

pub mod manifest;

pub use manifest::RedkitManifest;
