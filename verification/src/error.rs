use vstd::prelude::*;

verus! {

/// The ways in which a stack operation can be refused.
#[derive(Debug)]
pub enum EzError {
    NotARepo,
    NotInitialized,
    AlreadyInitialized,
    OnTrunk,
    NothingToCommit,
    BranchNotInStack(String),
    RebaseConflict(String),
    GhError(String),
    UserMessage(String),
    /// `gh` printed text that is not the JSON asked for; the parser's message.
    InvalidJson(String),
}

} // verus!
