//! Segmented block allocation and crash-recoverable synchronisation over a
//! byte-addressable region that outlives the process.
//!
//! The region is modelled as an arena of fixed-capacity blocks addressed by
//! index, never by raw address, so a chain of blocks survives a remap of the
//! region. On top of the arena sit:
//!
//! - chains of blocks holding one variable-length logical allocation each;
//! - a stripe-sharded bag of free chains, filed under a packed
//!   length-and-stripe descriptor;
//! - a restart-safe reader that streams bytes out of a chain, resumable
//!   across calls and across block boundaries;
//! - lock primitives whose transient control words are rebuilt on every
//!   pool open, before any concurrent access is permitted.

pub mod allocator;
pub mod bag;
pub mod block;
pub mod chain;
pub mod ctovec;
pub mod descriptor;
pub mod errors;
pub mod object;
pub mod pool;
pub mod reader;
pub mod reattach;
pub mod sync;
