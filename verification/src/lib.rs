//! SLA calculator support library: error classification, a structured
//! debug-trace log with JSON-lines rendering, and symbol helpers.

pub mod error_responses;
pub mod json_text;
pub mod trace;
pub mod symbols;
