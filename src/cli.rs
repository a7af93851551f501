use vstd::prelude::*;

verus! {

/// A parsed command line.
#[derive(Debug)]
pub struct Cli {
    pub command: Commands,
}

/// The commands of the tool.
#[derive(Debug)]
pub enum Commands {
    /// Show version information.
    Version,
    /// Start managing addons in the current project.
    Init,
    /// Install the addons of a source, or re-materialize every manifest entry.
    Install { git_url: Option<String> },
    /// List the manifest's entries.
    List,
    /// Remove an addon, named by its name or its source.
    Uninstall { name: String },
    /// Move addons to their sources' latest commits.
    Upgrade { addon_name: Option<String> },
    /// Manage the cache of source repositories.
    Cache { action: CacheAction },
}

/// What the `cache` command does.
#[derive(Clone, Copy, Debug, PartialEq, Eq)]
pub enum CacheAction {
    /// Print the cache directory.
    Path,
    /// Wipe and recreate the cache directory.
    Clear,
}

} // verus!
