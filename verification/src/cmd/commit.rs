use vstd::prelude::*;

use crate::error::EzError;
use crate::order::sorted;
use crate::stack::{BranchMeta, StackState};
use crate::text::views;

verus! {

/// The refusal, if any, to work on `branch` as a branch of the stack: the
/// trunk is refused first, then a branch the stack does not record.
pub fn check_stack_branch(state: &StackState, branch: &str) -> (r: Result<(), EzError>)
    ensures
        state.trunk_is(branch@) ==> r matches Err(EzError::OnTrunk),
        !state.trunk_is(branch@) && !state.managed(branch@) ==> (r matches Err(EzError::BranchNotInStack(n))
            && n@ == branch@),
        !state.trunk_is(branch@) && state.managed(branch@) ==> r is Ok,
{
    if state.is_trunk(branch) {
        return Err(EzError::OnTrunk);
    }
    if !state.is_managed(branch) {
        return Err(EzError::BranchNotInStack(branch.to_string()));
    }
    Ok(())
}

/// `ez commit` commits only staged changes: nothing staged is refused.
pub fn check_staged(staged: bool) -> (r: Result<(), EzError>)
    ensures
        staged ==> r is Ok,
        !staged ==> r matches Err(EzError::NothingToCommit),
{
    if staged {
        Ok(())
    } else {
        Err(EzError::NothingToCommit)
    }
}

/// A rebase that the caller is asked to run: `branch` moved from `upstream`
/// onto `onto` (`git rebase --onto onto upstream branch`).
pub struct RebaseRequest {
    pub onto: String,
    pub upstream: String,
    pub branch: String,
}

/// Restacking the children of a branch onto its new head, one child at a
/// time, in dictionary order.
pub struct ChildRestack {
    pub onto: String,
    pub children: Vec<String>,
    pub next: usize,
}

impl ChildRestack {
    /// The restack of the children of `branch` onto `new_head`.
    pub fn new(state: &StackState, branch: &str, new_head: String) -> (r: Self)
        ensures
            r.onto == new_head,
            sorted(views(r.children@)),
            views(r.children@).to_multiset() == state.child_names(branch@).to_multiset(),
            r.next == 0,
    {
        ChildRestack { onto: new_head, children: state.children_of(branch), next: 0 }
    }

    /// The next rebase to run: the next child moved from the head its parent
    /// had onto the new head; nothing once every child is done; a refusal
    /// when the stack does not record the child.
    pub fn request(&self, state: &StackState) -> (r: Result<Option<RebaseRequest>, EzError>)
        ensures
            self.next >= self.children@.len() ==> r matches Ok(None),
            self.next < self.children@.len() ==> ({
                let c = self.children@[self.next as int]@;
                &&& state.managed(c) ==> (r matches Ok(Some(q)) && q.onto@ == self.onto@
                    && q.upstream@ == state.meta(c).parent_head@ && q.branch@ == c)
                &&& !state.managed(c) ==> (r matches Err(EzError::BranchNotInStack(n)) && n@ == c)
            }),
    {
        if self.next >= self.children.len() {
            return Ok(None);
        }
        let child = &self.children[self.next];
        let meta = state.get_branch(child.as_str())?;
        Ok(Some(RebaseRequest { onto: self.onto.clone(), upstream: meta.parent_head.clone(), branch: child.clone() }))
    }

    /// Takes in the outcome of the rebase of the next child: on success the
    /// child is recorded on the new head and the restack moves on; a
    /// conflict stops it, leaving the stack as it was.
    pub fn rebased(&mut self, state: &mut StackState, ok: bool) -> (r: Result<(), EzError>)
        ensures
            final(self).onto == old(self).onto,
            final(self).children == old(self).children,
            old(self).next >= old(self).children@.len() ==> r is Ok && *final(state) == *old(state)
                && final(self).next == old(self).next,
            old(self).next < old(self).children@.len() ==> ({
                let c = old(self).children@[old(self).next as int]@;
                &&& !ok ==> (r matches Err(EzError::RebaseConflict(n)) && n@ == c) && *final(state) == *old(state)
                    && final(self).next == old(self).next
                &&& ok && !old(state).managed(c) ==> (r matches Err(EzError::BranchNotInStack(n)) && n@ == c)
                    && *final(state) == *old(state) && final(self).next == old(self).next
                &&& ok && old(state).managed(c) ==> r is Ok && final(self).next == old(self).next + 1
                    && final(state).trunk == old(state).trunk && final(state).remote == old(state).remote
                    && final(state).branches.key_seq() == old(state).branches.key_seq()
                    && final(state).branches.as_map() == old(state).branches.as_map().insert(c, BranchMeta {
                        parent_head: old(self).onto,
                        ..old(state).meta(c)
                    })
            }),
    {
        if self.next >= self.children.len() {
            return Ok(());
        }
        let child = self.children[self.next].clone();
        if !ok {
            return Err(EzError::RebaseConflict(child));
        }
        let meta = state.get_branch_mut(child.as_str())?;
        meta.parent_head = self.onto.clone();
        self.next = self.next + 1;
        Ok(())
    }
}

} // verus!
