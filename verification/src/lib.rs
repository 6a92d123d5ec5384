//! A file I/O profiler: measurement bookkeeping, file discovery, reports and
//! the terminal front end, with every decision proved against its contract.

pub mod binary64;
pub mod chart;
pub mod cli;
pub mod frontend;
pub mod headless;
pub mod human;
pub mod interrupt;
pub mod laws;
pub mod order;
pub mod rate;
pub mod report;
pub mod text;
