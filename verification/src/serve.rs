//! Options of the command that serves the results of earlier runs.
use vstd::prelude::*;

verus! {

/// Options to serve command.
#[derive(Debug, Clone, PartialEq, Eq)]
pub struct ServeOptions {
    /// Maelstrom binary location.
    pub maelstrom_bin: String,
}

} // verus!
