//! The parsed command-line arguments the server starts from.

use vstd::prelude::*;

verus! {

/// What the command line configures: whether writing is allowed, and the
/// directories the service may touch.
#[derive(Debug)]
pub struct CommandArguments {
    pub allow_write: bool,
    pub allowed_directories: Vec<String>,
}

} // verus!
