//! A hybrid logical clock: timestamps made of a physical time in milliseconds,
//! a logical counter and a node identifier, advanced by local events (`send_at`)
//! and by merging timestamps seen from other nodes (`recv_at`), with a canonical
//! text form that reads back unchanged.

pub mod canonical;
pub mod decimal;
pub mod murmur;
pub mod timestamp;
pub mod wall_clock;

pub use timestamp::{HlcError, Timestamp};
