use vstd::prelude::*;

use crate::error::EzError;

verus! {

/// `ez amend` needs staged changes unless it stages everything itself.
pub fn check_staged(all: bool, staged: bool) -> (r: Result<(), EzError>)
    ensures
        (all || staged) ==> r is Ok,
        !all && !staged ==> r matches Err(EzError::NothingToCommit),
{
    if !all && !staged {
        Err(EzError::NothingToCommit)
    } else {
        Ok(())
    }
}

} // verus!
