//! The core of a single-source, multi-sink relay: every datagram that arrives on one
//! inbound endpoint is copied to each stream subscriber that is connected at that moment.
//!
//! The library holds the state that the relay's activities share and the rules that
//! change it. Sockets, threads and locks belong to the program around it: that program
//! receives and writes, and reports here what happened.

pub mod arguments;
pub mod config;
pub mod counter;
pub mod datagram;
pub mod history;
pub mod registry;
