//! Finds stale git branches and trims them safely.

pub mod cache;
pub mod cli;
pub mod config;
pub mod git;
mod list;
pub mod ops;
pub mod output;
pub mod parallel;
pub mod progress;
pub mod scan;
pub mod session;
pub mod text;
pub mod tui;
