use vstd::prelude::*;

use crate::order::{sort_strings, sorted};
use crate::stack::{BranchMeta, StackState};
use crate::text::{concat, contains_seq, decimal, parse_unsigned, parse_unsigned_exec, str_contains, str_eq, u64_to_decimal, views};

verus! {

broadcast use crate::names::NameMap::lemma_dom, crate::names::NameMap::lemma_wf;

/// Branches checked out in a worktree that `ez` made live under `/.worktrees/`.
pub fn is_ez_worktree(path: &str) -> (b: bool)
    ensures
        b == contains_seq(path@, "/.worktrees/"@),
{
    str_contains(path, "/.worktrees/")
}

/// An argument that reads as a pull request number, as `str::parse::<u64>` reads it.
pub fn parse_pr_number(arg: &str) -> (r: Option<u64>)
    ensures
        match parse_unsigned(arg@, u64::MAX as nat) {
            Some(n) => r == Some(n as u64),
            None => r is None,
        },
{
    parse_unsigned_exec(arg, u64::MAX)
}

/// The name of the first branch in `metas` with pull request `pr`.
pub open spec fn first_with_pr(metas: Seq<BranchMeta>, pr: u64) -> Option<Seq<char>>
    decreases metas.len(),
{
    if metas.len() == 0 {
        None
    } else if metas[0].pr_number == Some(pr) {
        Some(metas[0].name@)
    } else {
        first_with_pr(metas.drop_first(), pr)
    }
}

/// Looking a pull request up among recorded branches finds a branch exactly
/// when some branch records that pull request, and what it finds is the name
/// of a branch that records it.
pub proof fn law_pr_lookup_finds(metas: Seq<BranchMeta>, pr: u64)
    ensures
        first_with_pr(metas, pr) is Some <==> exists|i: int|
            0 <= i < metas.len() && (#[trigger] metas[i]).pr_number == Some(pr),
        first_with_pr(metas, pr) matches Some(n) ==> exists|i: int|
            0 <= i < metas.len() && (#[trigger] metas[i]).pr_number == Some(pr) && metas[i].name@ == n,
    decreases metas.len(),
{
    if metas.len() > 0 {
        law_pr_lookup_finds(metas.drop_first(), pr);
        if metas[0].pr_number != Some(pr) {
            if exists|i: int| 0 <= i < metas.len() && (#[trigger] metas[i]).pr_number == Some(pr) {
                let i = choose|i: int| 0 <= i < metas.len() && (#[trigger] metas[i]).pr_number == Some(pr);
                assert(metas.drop_first()[i - 1] == metas[i]);
            }
            if let Some(n) = first_with_pr(metas, pr) {
                let i = choose|i: int|
                    0 <= i < metas.drop_first().len() && (#[trigger] metas.drop_first()[i]).pr_number == Some(pr)
                        && metas.drop_first()[i].name@ == n;
                assert(metas[i + 1] == metas.drop_first()[i]);
            }
        }
    }
}

/// On a stack whose branches record their own names, the branch found for
/// a pull request is a recorded branch with that pull request, and one is
/// found whenever some recorded branch has it.
pub proof fn law_find_branch_by_pr(state: StackState, pr: u64)
    requires
        state.branches.wf(),
        state.names_match(),
    ensures
        (exists|k: Seq<char>| #[trigger] state.managed(k) && state.meta(k).pr_number == Some(pr))
            <==> first_with_pr(state.branches.value_seq(), pr) is Some,
        first_with_pr(state.branches.value_seq(), pr) matches Some(n) ==> state.managed(n) && state.meta(n).pr_number
            == Some(pr),
{
    broadcast use crate::names::NameMap::lemma_dom, crate::names::NameMap::lemma_wf;

    let vs = state.branches.value_seq();
    let ks = state.branches.key_seq();
    law_pr_lookup_finds(vs, pr);
    if exists|k: Seq<char>| #[trigger] state.managed(k) && state.meta(k).pr_number == Some(pr) {
        let k = choose|k: Seq<char>| #[trigger] state.managed(k) && state.meta(k).pr_number == Some(pr);
        let i = ks.index_of(k);
        assert(ks[i] == k);
        assert(state.branches.as_map()[ks[i]] == vs[i]);
        assert(vs[i].pr_number == Some(pr));
    }
    if let Some(n) = first_with_pr(vs, pr) {
        let i = choose|i: int| 0 <= i < vs.len() && (#[trigger] vs[i]).pr_number == Some(pr) && vs[i].name@ == n;
        assert(state.branches.as_map()[ks[i]] == vs[i]);
        assert(state.managed(ks[i]));
        assert(state.meta(ks[i]).name@ == ks[i]);
        assert(state.managed(n));
    }
}

/// The branch whose pull request is number `pr`.
pub fn find_branch_by_pr(state: &StackState, pr: u64) -> (r: Option<String>)
    ensures
        match first_with_pr(state.branches.value_seq(), pr) {
            Some(n) => r matches Some(s) && s@ == n,
            None => r is None,
        },
        r is Some <==> exists|i: int|
            0 <= i < state.branches.value_seq().len() && (#[trigger] state.branches.value_seq()[i]).pr_number == Some(
                pr,
            ),
        r matches Some(s) ==> exists|i: int|
            0 <= i < state.branches.value_seq().len() && (#[trigger] state.branches.value_seq()[i]).pr_number == Some(
                pr,
            ) && state.branches.value_seq()[i].name@ == s@,
{
    proof {
        law_pr_lookup_finds(state.branches.value_seq(), pr);
        use_type_invariant(&state.branches);
        assert(state.branches.value_seq().skip(0) =~= state.branches.value_seq());
    }
    let n = state.branches.len();
    let mut i: usize = 0;
    while i < n
        invariant
            n == state.branches.value_seq().len(),
            n == state.branches.key_seq().len(),
            i <= n,
            first_with_pr(state.branches.value_seq(), pr) == first_with_pr(state.branches.value_seq().skip(i as int), pr),
        decreases n - i,
    {
        let meta = state.branches.value_at(i);
        proof {
            let vs = state.branches.value_seq();
            assert(vs.skip(i as int).drop_first() =~= vs.skip(i + 1));
            assert(vs.skip(i as int)[0] == vs[i as int]);
        }
        if meta.pr_number == Some(pr) {
            return Some(meta.name.clone());
        }
        i += 1;
    }
    None
}

/// The branch that `ez checkout <arg>` switches to: the branch with that
/// pull request when the argument is a number, otherwise the named branch,
/// which must be the trunk or a branch of the stack.
pub fn resolve_target(state: &StackState, arg: &str) -> (r: Result<String, String>)
    ensures
        match parse_unsigned(arg@, u64::MAX as nat) {
            Some(n) => match first_with_pr(state.branches.value_seq(), n as u64) {
                Some(b) => r matches Ok(t) && t@ == b,
                None => r matches Err(m) && m@ == "No branch found with PR #"@ + decimal(n)
                    + "\n  → Run `ez branch` to see all branches"@,
            },
            None => if state.trunk_is(arg@) || state.managed(arg@) {
                r matches Ok(t) && t@ == arg@
            } else {
                r matches Err(m) && m@ == "Branch `"@ + arg@ + "` is not tracked by ez\n  → Run `ez branch` to see all branches"@
            },
        },
{
    match parse_pr_number(arg) {
        Some(n) => match find_branch_by_pr(state, n) {
            Some(b) => Ok(b),
            None => Err(concat(
                concat("No branch found with PR #", u64_to_decimal(n).as_str()).as_str(),
                "\n  → Run `ez branch` to see all branches",
            )),
        },
        None => {
            if !state.is_trunk(arg) && !state.is_managed(arg) {
                return Err(concat(
                    concat("Branch `", arg).as_str(),
                    "` is not tracked by ez\n  → Run `ez branch` to see all branches",
                ));
            }
            Ok(arg.to_string())
        },
    }
}

/// The branches offered by the interactive selector: the trunk, then the
/// recorded branches in dictionary order.
pub fn selector_branches(state: &StackState) -> (r: Vec<String>)
    ensures
        r@.len() >= 1,
        r@[0]@ == state.trunk@,
        sorted(views(r@).drop_first()),
        views(r@).drop_first().to_multiset() == state.branches.key_seq().to_multiset(),
{
    let mut keys: Vec<String> = Vec::new();
    let n = state.branches.len();
    let mut i: usize = 0;
    while i < n
        invariant
            n == state.branches.key_seq().len(),
            i <= n,
            views(keys@) == state.branches.key_seq().take(i as int),
        decreases n - i,
    {
        let ghost before = views(keys@);
        keys.push(state.branches.key_at(i).clone());
        proof {
            assert(views(keys@) =~= before.push(state.branches.key_seq()[i as int]));
            assert(state.branches.key_seq().take(i + 1) =~= state.branches.key_seq().take(i as int).push(state.branches.key_seq()[i as int]));
        }
        i += 1;
    }
    proof {
        assert(state.branches.key_seq().take(n as int) =~= state.branches.key_seq());
    }
    let mut branches = sort_strings(keys);
    let ghost sorted_views = views(branches@);
    branches.insert(0, state.trunk.clone());
    proof {
        assert(views(branches@).drop_first() =~= sorted_views);
    }
    branches
}

/// The selector starts on the current branch, or on the first entry when
/// the current branch is not offered.
pub fn default_selection(branches: &Vec<String>, current: &str) -> (idx: usize)
    ensures
        views(branches@).contains(current@) ==> idx < branches@.len() && branches@[idx as int]@ == current@
            && forall|j: int| 0 <= j < idx ==> #[trigger] views(branches@)[j] != current@,
        !views(branches@).contains(current@) ==> idx == 0,
{
    let mut i: usize = 0;
    while i < branches.len()
        invariant
            i <= branches@.len(),
            forall|j: int| 0 <= j < i ==> #[trigger] views(branches@)[j] != current@,
        decreases branches@.len() - i,
    {
        if str_eq(branches[i].as_str(), current) {
            assert(views(branches@)[i as int] == current@);
            return i;
        }
        i += 1;
    }
    proof {
        if views(branches@).contains(current@) {
            let j = views(branches@).index_of(current@);
            assert(views(branches@)[j] == current@);
        }
    }
    0
}

} // verus!
