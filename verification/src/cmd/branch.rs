use vstd::prelude::*;

use crate::text::{concat, decimal, u64_to_decimal};

verus! {

/// The line `ez branch` prints for one branch: a marker for the current
/// branch, the name, the pull request and the worktree path, if any.
pub open spec fn branch_line_text(is_current: bool, branch: Seq<char>, pr: Option<u64>, worktree: Option<Seq<char>>) -> Seq<
    char,
> {
    (if is_current { "* "@ } else { "  "@ }) + branch + (match pr {
        Some(n) => " #"@ + decimal(n as nat),
        None => Seq::empty(),
    }) + (match worktree {
        Some(p) => " "@ + p,
        None => Seq::empty(),
    })
}

/// A branch line is the marker and the name, then the pull request when
/// there is one, then the worktree path when there is one; the worktree part
/// is the same whether or not the branch has a pull request.
pub proof fn law_branch_line_parts(is_current: bool, branch: Seq<char>, pr: Option<u64>, worktree: Seq<char>)
    ensures
        branch_line_text(is_current, branch, None, None) == (if is_current { "* "@ } else { "  "@ }) + branch,
        forall|n: u64|
            #![trigger branch_line_text(is_current, branch, Some(n), None)]
            branch_line_text(is_current, branch, Some(n), None) == branch_line_text(is_current, branch, None, None)
                + " #"@ + decimal(n as nat),
        branch_line_text(is_current, branch, pr, Some(worktree)) == branch_line_text(is_current, branch, pr, None) + " "@
            + worktree,
        branch_line_text(is_current, branch, None, Some(worktree)) == (if is_current { "* "@ } else { "  "@ })
            + branch + " "@ + worktree,
{
    assert(branch_line_text(is_current, branch, None, None) =~= (if is_current { "* "@ } else { "  "@ }) + branch);
    assert(branch_line_text(is_current, branch, pr, Some(worktree)) =~= branch_line_text(is_current, branch, pr, None)
        + " "@ + worktree);
    assert(branch_line_text(is_current, branch, None, Some(worktree)) =~= (if is_current { "* "@ } else { "  "@ })
        + branch + " "@ + worktree);
    assert forall|n: u64| #![trigger branch_line_text(is_current, branch, Some(n), None)]
        branch_line_text(is_current, branch, Some(n), None) == branch_line_text(is_current, branch, None, None)
            + " #"@ + decimal(n as nat) by {
        assert(branch_line_text(is_current, branch, Some(n), None) =~= branch_line_text(is_current, branch, None, None)
            + " #"@ + decimal(n as nat));
    }
}

pub fn branch_line(is_current: bool, branch: &str, pr: Option<u64>, worktree: Option<&str>) -> (line: String)
    ensures
        line@ == branch_line_text(
            is_current,
            branch@,
            pr,
            match worktree {
                Some(p) => Some(p@),
                None => None,
            },
        ),
{
    let mut line = if is_current { "* ".to_string() } else { "  ".to_string() };
    line.append(branch);
    if let Some(n) = pr {
        line.append(concat(" #", u64_to_decimal(n).as_str()).as_str());
    }
    if let Some(p) = worktree {
        line.append(" ");
        line.append(p);
    }
    proof {
        if pr is None {
            assert(line@ =~= branch_line_text(is_current, branch@, pr, match worktree {
                Some(p) => Some(p@),
                None => None,
            }));
        }
    }
    line
}

} // verus!
