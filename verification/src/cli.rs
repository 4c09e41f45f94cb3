//! The command line.

use vstd::prelude::*;

verus! {

/// The parsed command line.
#[derive(Debug)]
pub struct Cli {
    pub command: CliCommand,
}

/// What the user asked for.
#[derive(Debug)]
pub enum CliCommand {
    /// Proxy any restic command.
    Proxy(Vec<String>),
    /// Generate the launchd agents.
    Install,
}

} // verus!
