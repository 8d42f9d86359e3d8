//! A node messaging core for a simulated distributed-systems test harness.
//!
//! Each node is a process that exchanges newline-delimited JSON envelopes on
//! its standard streams.  This crate holds the verified core: the envelope
//! model, the wire codec, the sequence-numbering writer, the reader, the
//! state-machine contract, and the orchestrator that runs the initialization
//! handshake and the receive-dispatch loop.  The surrounding process performs
//! the actual stream I/O and feeds lines to the orchestrator one at a time.

pub mod message;
pub mod node;
pub mod codec;
pub mod numbers;
pub mod receiver;
pub mod sender;
pub mod machine;
pub mod echo;
pub mod unique_ids;
