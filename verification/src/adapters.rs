//! How values are shown in a log.
pub mod debug;
pub mod tracing;
