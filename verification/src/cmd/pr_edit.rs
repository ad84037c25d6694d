use vstd::prelude::*;

use crate::cmd::commit::check_stack_branch;
use crate::error::EzError;
use crate::stack::StackState;
use crate::text::concat;

verus! {

/// The pull request that `ez pr-edit` edits: that of `current`, which must
/// be a branch of the stack with a pull request.
pub fn pr_to_edit(state: &StackState, current: &str) -> (r: Result<u64, EzError>)
    ensures
        state.trunk_is(current@) ==> r matches Err(EzError::OnTrunk),
        !state.trunk_is(current@) && !state.managed(current@) ==> (r matches Err(EzError::BranchNotInStack(n))
            && n@ == current@),
        !state.trunk_is(current@) && state.managed(current@) ==> match state.meta(current@).pr_number {
            Some(n) => r == Ok::<u64, EzError>(n),
            None => r matches Err(EzError::UserMessage(m)) && m@ == "No PR found for branch `"@ + current@
                + "` — run `ez push` to create one first"@,
        },
{
    check_stack_branch(state, current)?;
    let meta = state.get_branch(current)?;
    match meta.pr_number {
        Some(n) => Ok(n),
        None => Err(EzError::UserMessage(concat(
            concat("No PR found for branch `", current).as_str(),
            "` — run `ez push` to create one first",
        ))),
    }
}

} // verus!
