//! A cross-platform `watch`: run a command periodically and show its output, with the
//! changes between runs highlighted.

pub mod config;
pub mod diff;
pub mod display;
pub mod runner;
pub mod text;
pub mod watch;
