use vstd::prelude::*;

use crate::error::EzError;

verus! {

/// `ez init` works only inside a git repository that is not set up yet.
pub fn check_init(is_repo: bool, initialized: bool) -> (r: Result<(), EzError>)
    ensures
        !is_repo ==> r matches Err(EzError::NotARepo),
        is_repo && initialized ==> r matches Err(EzError::AlreadyInitialized),
        is_repo && !initialized ==> r is Ok,
{
    if !is_repo {
        return Err(EzError::NotARepo);
    }
    if initialized {
        return Err(EzError::AlreadyInitialized);
    }
    Ok(())
}

} // verus!
