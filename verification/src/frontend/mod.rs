//! The terminal user interface.

pub mod batch;
pub mod boot;
pub mod menu;
pub mod paint;
pub mod prompt;
pub mod screen;
pub mod script;
pub mod ui;
