//! The query command.

use vstd::prelude::*;

use crate::cli::{dispatch, dispatch_spec, QueryArgs, QueryPlan};

verus! {

/// Handles a query command by planning it.
pub fn handle(args: QueryArgs) -> (r: QueryPlan)
    ensures
        r == dispatch_spec(args),
{
    dispatch(args)
}

} // verus!
