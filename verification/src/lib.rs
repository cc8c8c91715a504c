//! Automated review of a chess game tree.
//!
//! Starting from a root position the review consults chess engines over the
//! UCI protocol, gathers their evaluations and best moves in a [`knowledge`]
//! graph and exports the result as PGN. This crate holds the rules of that
//! process: the protocol grammar, the knowledge graph, the PGN tree and the
//! scheduling decisions. Reading from and writing to an engine process is
//! left to the caller.
pub mod adapters;
pub mod chess;
pub mod config;
pub mod knowledge;
pub mod rev;
pub mod text;
pub mod uci;
