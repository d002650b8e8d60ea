//! A bounded pool of decoded reference frames.
//!
//! The pool stores opaque byte payloads keyed by monotonically increasing
//! identifiers. Each frame is classified as short-term or long-term; when an
//! insertion pushes the pool over its fixed capacity, short-term frames are
//! evicted first, oldest first, and long-term frames only when no short-term
//! frame remains.

pub mod pool;
pub mod predict;
