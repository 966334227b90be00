//! The command line as data: what each command carries, independent of
//! how the arguments were parsed.

use vstd::prelude::*;

verus! {

/// Global flags and the command to run.
#[derive(Debug)]
pub struct Cli {
    pub no_color: bool,
    pub no_pager: bool,
    pub json: bool,
    pub quiet: bool,
    pub raw: bool,
    pub command: Commands,
}

/// The commands of apix.
#[derive(Debug)]
pub enum Commands {
    /// Search the registry for APIs
    Search { query: String, source: Option<String>, all_sources: bool, no_auto_update: bool },
    /// Pull an API vault (or specific version) from the registry
    Pull { namespace: String, source: Option<String> },
    /// Update the local registry
    Update { source: Option<String>, all_sources: bool },
    /// Full-text search within a pulled vault
    Grep { namespace: String, query: String, limit: usize, source: Option<String> },
    /// Show frontmatter + required params only
    Peek { route: String, source: Option<String> },
    /// Show API metadata for a namespace/version
    Info { target: String, source: Option<String> },
    /// Show full endpoint documentation
    Show { route: String, source: Option<String> },
    /// Execute an API call
    Call {
        route: String,
        headers: Vec<String>,
        data: Option<String>,
        param: Vec<String>,
        query: Vec<String>,
        verbose: bool,
        dry_run: bool,
        source: Option<String>,
    },
    /// Import a vault from an OpenAPI spec
    Import { source: String, name: String, output: Option<String>, overwrite: bool },
    /// Generate shell completion scripts
    Completions { shell: CompletionShell },
    /// Initialize ~/.apix
    Init,
    /// Manage sources
    Source { command: SourceCommands },
    /// Manage local source registry indexes
    Registry { command: RegistryCommands },
    /// List local inventory or routes for namespace/version
    Ls { namespace: Option<String>, source: Option<String> },
}

/// Source management.
#[derive(Debug)]
pub enum SourceCommands {
    /// Add a source
    Add { name: String, remote: String },
    /// Remove a source
    Remove { name: String },
    /// List configured sources
    List,
}

/// Registry index management.
#[derive(Debug)]
pub enum RegistryCommands {
    /// Rebuild a registry index from a source root or repository path
    Rebuild { source: Option<String>, path: Option<String> },
}

/// The shells completions can be generated for.
#[derive(Debug, Clone, Copy, PartialEq, Eq)]
pub enum CompletionShell {
    Bash,
    Elvish,
    Fish,
    PowerShell,
    Zsh,
}

/// Whether a command needs the apix home initialised before it runs: all
/// but `init` and `completions` do.
pub fn needs_home(cmd: &Commands) -> (r: bool)
    ensures
        r == !(cmd is Init || cmd is Completions),
{
    match cmd {
        Commands::Init => false,
        Commands::Completions { .. } => false,
        _ => true,
    }
}

} // verus!
