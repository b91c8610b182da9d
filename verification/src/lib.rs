//! A latency and loss probe over UDP: the packet codec, the sequence
//! generator, the rules of one exchange and the summary of a batch.
//!
//! Everything here is pure: sockets, clocks and threads belong to the caller,
//! who hands in bytes and times and gets decisions back.

pub mod order;
pub mod packet;
pub mod ping;
pub mod sequence;
pub mod stats;
pub mod util;
