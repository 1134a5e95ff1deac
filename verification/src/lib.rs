//! A fixed-capacity bounded FIFO queue (ring buffer), together with a
//! verified reader-writer lock wrapper that makes one buffer safe to share
//! across threads.

pub mod laws;
pub mod ring;
pub mod safe;
