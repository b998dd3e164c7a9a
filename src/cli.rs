//! What the command line asks for.

use vstd::prelude::*;

verus! {

/// The command line: book an entry (for yesterday, or on a given issue), or run a
/// command.
#[derive(Debug, Clone)]
pub struct Cli {
    pub yesterday: bool,
    pub id: Option<String>,
    pub command: Option<Command>,
}

/// A command of the command line.
#[derive(Debug, Clone)]
pub enum Command {
    /// Search for tickets, and book on the only one found when asked to.
    Search { query: String, direct_track: bool },
    /// Log in as `user` on the tracker at `base_url`.
    Login { user: String, base_url: String },
    /// List the entries of a day or a week.
    List(ListArgs),
}

/// What to list.
#[derive(Debug, Clone)]
pub struct ListArgs {
    pub with_issues: bool,
    pub previous: bool,
    pub week: bool,
    pub ignore_custom_field: Option<String>,
}

} // verus!
