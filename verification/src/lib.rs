//! Scheduled restic backups, driven by launchd.
//!
//! The library holds what the program decides and computes, on plain values; reading the
//! environment, files and the network is left to the program around it.

pub mod app;
pub mod cli;
pub mod config;
pub mod env_file;
pub mod env_map;
pub mod install;
pub mod label;
pub mod launchd;
pub mod notify;
pub mod path;
pub mod plist;
pub mod restic;
pub mod secrets;
pub mod text;
pub mod xml;
