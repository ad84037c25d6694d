use vstd::prelude::*;

use crate::cmd::commit::RebaseRequest;
use crate::error::EzError;
use crate::stack::{BranchMeta, StackState};
use crate::text::{str_eq, views};

verus! {

/// Restacking the whole stack: each branch, parents first, moved onto the
/// current tip of its parent when the tip has moved.
pub struct Restack {
    order: Vec<String>,
    pos: usize,
    restacked: usize,
    /// The parent tip that the branch at `pos` is being moved onto.
    pending: Option<String>,
}

/// What the restack asks of the caller next.
pub enum RestackRequest {
    /// The current tip of `parent`, the parent of `branch`.
    ParentTip { branch: String, parent: String },
    /// Every branch is done; `restacked` of them were moved.
    Finished { restacked: usize },
}

impl Restack {
    /// No more branches are counted as moved than have been passed.
    #[verifier::type_invariant]
    spec fn counted_within(self) -> bool {
        self.restacked <= self.pos
    }

    /// The branches in the order they are taken.
    pub closed spec fn order_view(self) -> Seq<Seq<char>> {
        views(self.order@)
    }

    pub closed spec fn pos_view(self) -> nat {
        self.pos as nat
    }

    pub closed spec fn restacked_view(self) -> nat {
        self.restacked as nat
    }

    /// The tip the branch at the current position is being moved onto.
    pub closed spec fn pending_view(self) -> Option<String> {
        self.pending
    }

    pub fn new(state: &StackState) -> (r: Self)
        ensures
            state.is_topo_order(r.order_view()),
            r.pos_view() == 0,
            r.restacked_view() == 0,
            r.pending_view() is None,
    {
        Restack { order: state.topo_order(), pos: 0, restacked: 0, pending: None }
    }

    /// The next question: the tip of the next branch's parent, or the end.
    /// A branch in the order that the stack does not record is refused.
    pub fn request(&self, state: &StackState) -> (r: Result<RestackRequest, EzError>)
        ensures
            self.pos_view() >= self.order_view().len() ==> (r matches Ok(RestackRequest::Finished { restacked })
                && restacked == self.restacked_view()),
            self.pos_view() < self.order_view().len() ==> ({
                let b = self.order_view()[self.pos_view() as int];
                &&& state.managed(b) ==> (r matches Ok(RestackRequest::ParentTip { branch, parent })
                    && branch@ == b && parent@ == state.parent_of(b))
                &&& !state.managed(b) ==> (r matches Err(EzError::BranchNotInStack(n)) && n@ == b)
            }),
    {
        if self.pos >= self.order.len() {
            return Ok(RestackRequest::Finished { restacked: self.restacked });
        }
        let branch = &self.order[self.pos];
        proof {
            assert(self.order_view()[self.pos as int] == branch@);
        }
        let meta = state.get_branch(branch.as_str())?;
        Ok(RestackRequest::ParentTip { branch: branch.clone(), parent: meta.parent.clone() })
    }

    /// Takes in the current tip of the next branch's parent: a branch that
    /// already sits on it is passed over; otherwise the caller is asked to
    /// move it from the head its parent had onto the tip.
    pub fn parent_tip(&mut self, state: &StackState, tip: String) -> (r: Result<Option<RebaseRequest>, EzError>)
        ensures
            final(self).order_view() == old(self).order_view(),
            final(self).restacked_view() == old(self).restacked_view(),
            old(self).pos_view() >= old(self).order_view().len() ==> (r matches Ok(None)) && *final(self) == *old(self),
            old(self).pos_view() < old(self).order_view().len() ==> ({
                let b = old(self).order_view()[old(self).pos_view() as int];
                &&& !state.managed(b) ==> (r matches Err(EzError::BranchNotInStack(n)) && n@ == b)
                    && *final(self) == *old(self)
                &&& state.managed(b) && state.meta(b).parent_head@ == tip@ ==> (r matches Ok(None))
                    && final(self).pos_view() == old(self).pos_view() + 1 && final(self).pending_view() is None
                &&& state.managed(b) && state.meta(b).parent_head@ != tip@ ==> (r matches Ok(Some(q))
                    && q.onto@ == tip@ && q.upstream@ == state.meta(b).parent_head@ && q.branch@ == b)
                    && final(self).pos_view() == old(self).pos_view() && final(self).pending_view() == Some(tip)
            }),
    {
        proof {
            use_type_invariant(&*self);
        }
        if self.pos >= self.order.len() {
            return Ok(None);
        }
        let branch = self.order[self.pos].clone();
        proof {
            assert(self.order_view()[self.pos as int] == branch@);
        }
        let meta = state.get_branch(branch.as_str())?;
        if str_eq(tip.as_str(), meta.parent_head.as_str()) {
            self.pos = self.pos + 1;
            self.pending = None;
            return Ok(None);
        }
        let upstream = meta.parent_head.clone();
        self.pending = Some(tip.clone());
        Ok(Some(RebaseRequest { onto: tip, upstream, branch }))
    }

    /// Takes in the outcome of the rebase asked for: on success the branch
    /// is recorded on its parent's tip, counted, and the restack moves on; a
    /// conflict stops it, leaving the stack as it was.
    pub fn rebased(&mut self, state: &mut StackState, ok: bool) -> (r: Result<(), EzError>)
        ensures
            final(self).order_view() == old(self).order_view(),
            old(self).pos_view() >= old(self).order_view().len() || old(self).pending_view() is None ==> r is Ok
                && *final(state) == *old(state) && *final(self) == *old(self),
            old(self).pos_view() < old(self).order_view().len() && old(self).pending_view() is Some ==> ({
                let b = old(self).order_view()[old(self).pos_view() as int];
                let tip = old(self).pending_view()->0;
                &&& !ok ==> (r matches Err(EzError::RebaseConflict(n)) && n@ == b) && *final(state) == *old(state)
                    && *final(self) == *old(self)
                &&& ok && !old(state).managed(b) ==> (r matches Err(EzError::BranchNotInStack(n)) && n@ == b)
                    && *final(state) == *old(state) && *final(self) == *old(self)
                &&& ok && old(state).managed(b) ==> r is Ok && final(self).pos_view() == old(self).pos_view() + 1
                    && final(self).restacked_view() == old(self).restacked_view() + 1 && final(self).pending_view() is None
                    && final(state).trunk == old(state).trunk && final(state).remote == old(state).remote
                    && final(state).branches.key_seq() == old(state).branches.key_seq()
                    && final(state).branches.as_map() == old(state).branches.as_map().insert(b, BranchMeta {
                        parent_head: tip,
                        ..old(state).meta(b)
                    })
            }),
    {
        proof {
            use_type_invariant(&*self);
        }
        if self.pos >= self.order.len() {
            return Ok(());
        }
        let tip = match &self.pending {
            Some(t) => t.clone(),
            None => {
                return Ok(());
            },
        };
        let branch = self.order[self.pos].clone();
        proof {
            assert(self.order_view()[self.pos as int] == branch@);
        }
        if !ok {
            return Err(EzError::RebaseConflict(branch));
        }
        let meta = state.get_branch_mut(branch.as_str())?;
        meta.parent_head = tip;
        self.pos = self.pos + 1;
        self.restacked = self.restacked + 1;
        self.pending = None;
        Ok(())
    }
}

} // verus!
