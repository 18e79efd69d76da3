//! The command line of the build system, as plain data.

use vstd::prelude::*;

verus! {

/// The command line interface of the build system.
#[derive(Debug)]
pub struct Cli {
    pub command: Commands,
}

/// The commands of the command line.
#[derive(Debug)]
pub enum Commands {
    /// Evaluates the program in `file`, with the files of `source`, on an
    /// optional argument written in the language.
    Eval { argument: Option<String>, file: String, source: String },
}

} // verus!
