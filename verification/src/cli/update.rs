//! The update command.

use vstd::prelude::*;

use crate::cli::{Action, UpdateArgs};

verus! {

/// Handles the update command: it runs with its arguments as given.
pub fn handle(args: UpdateArgs) -> (r: Action)
    ensures
        r == Action::Update(args),
{
    Action::Update(args)
}

} // verus!
