//! Building blocks for two programs that talk to a node of a Chord distributed hash table: an
//! interactive client and a benchmark that draws graphs.
//!
//! The crate holds what these programs compute and decide. Sockets, terminals, clocks, random
//! draws and drawing are the business of the programs themselves.

pub mod chart;
pub mod client;
pub mod command;
pub mod config;
pub mod decimal;
pub mod digest;
pub mod stats;
pub mod text;
pub mod wire;
pub mod workload;
