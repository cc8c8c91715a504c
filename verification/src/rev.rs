//! The review: which positions are analysed, by whom, and what becomes of
//! the results.
pub mod dispatcher;
pub mod engine;
pub mod processor;
