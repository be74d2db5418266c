//! The action dispatch engine of a file watcher: how configured command
//! lines are split into arguments, which change of which path triggers
//! which action, and in which order commands are started.
pub mod config;
pub mod runner;
pub mod util;
pub mod watcher;
