//! The command line of the utility that runs the challenges.
use crate::challange::RunOptions;
use crate::serve::ServeOptions;
use vstd::prelude::*;

verus! {

/// CLI to run Gossip Glomers challenge.
#[derive(Debug, Clone, PartialEq, Eq)]
pub struct Xtask {
    /// Subcommand for CLI.
    pub command: XtaskCommand,
}

/// Subcommand for CLI.
#[derive(Debug, Clone, PartialEq, Eq)]
pub enum XtaskCommand {
    /// Run some challenge.
    Run(RunOptions),
    /// Serve results of previous run challenges.
    Serve(ServeOptions),
    /// List all challenges.
    List,
}

} // verus!
