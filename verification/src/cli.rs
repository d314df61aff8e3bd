//! The command-line surface as plain data: what the user asked for,
//! after argument parsing.

use vstd::prelude::*;

verus! {

/// A parsed invocation.
#[derive(Debug, Clone, PartialEq, Eq)]
pub struct CLI {
    pub command: Command,
}

/// The top-level command.
#[derive(Debug, Clone, PartialEq, Eq)]
pub enum Command {
    /// Manage entire download lists.
    List { command: ListCommand },
}

/// An operation on whole download lists.
#[derive(Debug, Clone, PartialEq, Eq)]
pub enum ListCommand {
    /// Make a list the active one.
    Activate { name: String },
    /// Create a new download list.
    Create { name: String, description: String },
    /// Delete a download list.
    Delete { name: String },
    /// Print a download list's properties.
    Info { name: String },
    /// List all known download lists.
    List,
    /// Update an existing download list; only given values change.
    Update { name: String, description: Option<String> },
}

} // verus!
