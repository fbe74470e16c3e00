use vstd::prelude::*;

verus! {

// The command surface as plain data: what the surrounding program parses
// from its arguments and hands to the library.  Parsing and help text live
// with the program, not here.

/// A parsed invocation: an optional subcommand, an optional config-file
/// path, and an optional module name (the first configured module serves
/// as the default).
#[derive(Debug)]
pub struct Cli {
    pub command: Option<Command>,
    pub config_path: Option<String>,
    pub module: Option<String>,
}

/// The subcommands.
#[derive(Debug)]
pub enum Command {
    /// List releases.
    List(List),
    /// Install a release.
    Install(Install),
}

/// List releases, optionally only those already installed, up to a count.
#[derive(Debug)]
pub struct List {
    pub installed: bool,
    pub count: Option<u8>,
}

/// Install the release of a tag.
#[derive(Debug)]
pub struct Install {
    pub tag: String,
    pub use_cache: bool,
    pub verify_download: bool,
    pub install_dir: Option<String>,
    pub cache_dir: Option<String>,
}

/// Remove the release of a tag.
#[derive(Debug)]
pub struct Remove {
    pub tag: String,
}

} // verus!
