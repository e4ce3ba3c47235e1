//! Handlers of custom requests.

pub mod projects;
pub mod scripts;
