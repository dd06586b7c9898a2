//! The stats command.

use vstd::prelude::*;

use crate::cli::{Action, StatsArgs};

verus! {

/// Handles the stats command: it runs with its arguments as given.
pub fn handle(args: StatsArgs) -> (r: Action)
    ensures
        r == Action::Stats(args),
{
    Action::Stats(args)
}

} // verus!
