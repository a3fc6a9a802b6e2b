//! The interactive screen: a pure state machine, what it shows, and the
//! previews it asks for. Drawing and reading the keyboard are left to
//! whoever drives it.

pub mod app;
pub mod keys;
pub mod laws;
pub mod preview;
pub mod shown;
pub mod ui;
