//! Measuring files: the bookkeeping behind every read.

pub mod bulk;
pub mod discovery;
pub mod hardware_interrupt;
pub mod lease;
pub mod pass;
pub mod random;
pub mod session;
pub mod sweep;
pub mod walk;
pub mod write;
