//! The UCI protocol: what is sent to an engine and what it answers.
pub mod laws;
pub mod proto;
pub mod score;

pub use self::score::Score;
