//! The arguments of the command-line subcommands.

use vstd::prelude::*;

verus! {

/// Arguments of `status`: none.
#[derive(Debug)]
pub struct StatusArgs {}

/// Arguments of `check`: none.
#[derive(Debug)]
pub struct CheckArgs {}

/// Arguments of `add`: the paths to register (at least one).
#[derive(Debug)]
pub struct AddArgs {
    pub paths: Vec<String>,
}

/// Arguments of `remove`: the paths to unregister (at least one).
#[derive(Debug)]
pub struct RemoveArgs {
    pub paths: Vec<String>,
}

/// Arguments of `sync`: none.
#[derive(Debug)]
pub struct SyncArgs {}

/// Arguments of `disable-link`: every managed path (`all`), or the given paths.
#[derive(Debug)]
pub struct DisableLinkArgs {
    pub all: bool,
    pub paths: Vec<String>,
}

} // verus!
