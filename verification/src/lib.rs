//! A local peer-to-peer messenger with end-to-end encryption: the verified core.
//!
//! The library holds the decisions of the messenger (peer bookkeeping, session
//! set-up, file chunking and reassembly, the terminal interface state, the
//! command parsers) as functions with contracts. Sockets, terminals, files and
//! serialisation stay with the caller.

pub mod peer;
pub mod text;
pub mod file_transfer;
pub mod crypto;
pub mod identity;
pub mod protocol;
pub mod message;
pub mod address;
pub mod engine;
pub mod paths;
pub mod config;
pub mod ui;
pub mod headless;
