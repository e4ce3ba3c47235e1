//! Bookkeeping for what the server reports to the client.

pub mod diagnostics;
pub mod graph_reports;
