use vstd::prelude::*;

verus! {

/// The parsed command line.
#[derive(Debug)]
pub struct Cli {
    pub command: Commands,
}

/// The tool's subcommands.
#[derive(Debug)]
pub enum Commands {
    /// Loads configuration and runs a command: `config` holds the files in
    /// merge order, `command` the program followed by its arguments.
    Run { config: Vec<String>, command: Vec<String> },
}

} // verus!
