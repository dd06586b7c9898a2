//! The build command.

use vstd::prelude::*;

use crate::cli::{Action, BuildArgs};

verus! {

/// Handles the build command: it runs with its arguments as given.
pub fn handle(args: BuildArgs) -> (r: Action)
    ensures
        r == Action::Build(args),
{
    Action::Build(args)
}

} // verus!
