//! What the library promises as a whole.
//!
//! The laws speak of what goes into an operation and what comes out of it: the
//! replies of the operating system and the measurement that they amount to, a
//! report and what a reader finds in it. They are stated with plain arithmetic and
//! with readers of their own, so that they hold the models of the other modules to
//! account.

pub mod bulk;
pub mod charts;
pub mod cli;
pub mod csv;
pub mod files;
pub mod headless;
pub mod html;
pub mod json;
pub mod latency;
pub mod lines;
pub mod numbers;
pub mod profile;
pub mod random;
pub mod sweep;
pub mod time;
pub mod ui;
pub mod write;
