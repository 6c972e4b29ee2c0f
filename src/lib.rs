//! Structured-log field merging and trace-context handling for HTTP services.

mod text;
pub mod store;
pub mod spans;
pub mod context;
pub mod logs;
pub mod http;
pub mod outcome;
pub mod lifecycle;
