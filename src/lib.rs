//! Synthesizes a cluster scheduler's task trace: launch events from an arrival
//! clock, finish events held in a completion scheduler, merged into one stream
//! that is ordered by timestamp.
pub mod event;
pub mod scheduler;
pub mod pools;
pub mod trace;
pub mod random;
pub mod clock;
pub mod args;
