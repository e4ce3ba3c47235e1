//! What the server provides beyond the language protocol.

pub mod custom;
pub mod document_ops;
pub mod workspace_symbols;
