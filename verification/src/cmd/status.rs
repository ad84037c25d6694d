use vstd::prelude::*;

use crate::cmd::log::{pr_summary, pr_summary_text};
use crate::github::{PrInfo, PrInfoView};
use crate::stack::StackState;
use crate::text::{concat, decimal, join, join_strings, u64_to_decimal, views};
use crate::ui::{
    badge_text, branch_display, branch_display_text, dim, dim_text, hint_line, hint_text, info_line, info_text,
    pr_badge, warn_line, warn_text,
};

verus! {

/// The children of the trunk, one per line.
pub open spec fn child_lines(kids: Seq<Seq<char>>) -> Seq<Seq<char>> {
    kids.map_values(|c: Seq<char>| "  "@ + c)
}

/// The first lines of `ez status`, and whether the rest follows (only for a
/// branch of the stack). On the trunk: the trunk and its children; on a
/// branch the stack does not record: a warning; on a branch of the stack:
/// the branch, its parent and its children.
pub open spec fn status_intro_text(state: StackState, current: Seq<char>) -> (Seq<Seq<char>>, bool) {
    let kids = state.sorted_children(current);
    if state.trunk_is(current) {
        (seq!["On trunk branch: "@ + branch_display_text(current, true)] + if kids.len() == 0 {
            seq![info_text("No stacked branches yet."@), hint_text("Run `ez create <name>` to start a stack."@)]
        } else {
            seq![info_text(decimal(kids.len()) + " stacked branch(es):"@)] + child_lines(kids)
        }, false)
    } else if !state.managed(current) {
        (
            seq![
                warn_text("Branch `"@ + current + "` is not tracked by ez."@),
                hint_text("Run `ez create <name>` from a tracked branch to add it to the stack."@),
            ],
            false,
        )
    } else {
        (
            seq![
                "Branch: "@ + branch_display_text(current, true),
                info_text("Parent: "@ + state.parent_of(current)),
                if kids.len() == 0 {
                    info_text("Children: none (top of stack)"@)
                } else {
                    info_text("Children: "@ + join(kids, ", "@))
                },
            ],
            true,
        )
    }
}

pub fn status_intro(state: &StackState, current: &str) -> (r: (Vec<String>, bool))
    ensures
        (views(r.0@), r.1) == status_intro_text(*state, current@),
{
    let kids = state.children_of(current);
    let mut lines: Vec<String> = Vec::new();
    if state.is_trunk(current) {
        let bold = branch_display(current, true);
        lines.push(concat("On trunk branch: ", bold.as_str()));
        if kids.len() == 0 {
            lines.push(info_line("No stacked branches yet."));
            lines.push(hint_line("Run `ez create <name>` to start a stack."));
            proof {
                assert(views(lines@) =~= status_intro_text(*state, current@).0);
            }
        } else {
            let count = concat(u64_to_decimal(kids.len() as u64).as_str(), " stacked branch(es):");
            lines.push(info_line(count.as_str()));
            let ghost head = views(lines@);
            let n = kids.len();
            for i in 0..n
                invariant
                    n == kids@.len(),
                    views(lines@) == head + child_lines(views(kids@).take(i as int)),
            {
                proof {
                    assert(child_lines(views(kids@).take(i + 1)) =~= child_lines(views(kids@).take(i as int)).push(
                        "  "@ + kids@[i as int]@,
                    ));
                }
                let ghost before = views(lines@);
                let line = concat("  ", kids[i].as_str());
                lines.push(line);
                proof {
                    assert(views(lines@) =~= before.push(line@));
                    assert(views(kids@)[i as int] == kids@[i as int]@);
                    assert(views(lines@) =~= head + child_lines(views(kids@).take(i + 1)));
                }
            }
            proof {
                assert(views(kids@).take(n as int) =~= views(kids@));
                assert(views(lines@) =~= status_intro_text(*state, current@).0);
            }
        }
        return (lines, false);
    }
    if !state.is_managed(current) {
        let a = concat("Branch `", current);
        let b = concat(a.as_str(), "` is not tracked by ez.");
        lines.push(warn_line(b.as_str()));
        lines.push(hint_line("Run `ez create <name>` from a tracked branch to add it to the stack."));
        proof {
            assert(views(lines@) =~= status_intro_text(*state, current@).0);
        }
        return (lines, false);
    }
    let parent = match state.get_branch(current) {
        Ok(meta) => meta.parent.clone(),
        Err(_) => String::new(),
    };
    let bold = branch_display(current, true);
    lines.push(concat("Branch: ", bold.as_str()));
    let p = concat("Parent: ", parent.as_str());
    lines.push(info_line(p.as_str()));
    if kids.len() == 0 {
        lines.push(info_line("Children: none (top of stack)"));
    } else {
        let joined = join_strings(&kids, ", ");
        let c = concat("Children: ", joined.as_str());
        lines.push(info_line(c.as_str()));
    }
    proof {
        assert(views(lines@) =~= status_intro_text(*state, current@).0);
    }
    (lines, true)
}

/// The pull request lines of `ez status`: none recorded, the one the lookup
/// found (with its title and address), or the recorded number shown as open.
pub open spec fn status_pr_text(recorded: Option<u64>, found: Option<PrInfoView>) -> Seq<Seq<char>> {
    match recorded {
        None => seq![info_text("PR: not yet created"@), hint_text("Run `ez submit` to create a PR."@)],
        Some(n) => match found {
            Some(p) => seq![info_text("PR: "@ + pr_summary_text(p) + " — "@ + p.title), hint_text(p.url)],
            None => seq![info_text("PR: "@ + badge_text(n, "OPEN"@, false))],
        },
    }
}

pub fn status_pr_lines(recorded: Option<u64>, found: Option<PrInfo>) -> (lines: Vec<String>)
    ensures
        views(lines@) == status_pr_text(
            recorded,
            match found {
                Some(p) => Some(p@),
                None => None,
            },
        ),
{
    let mut lines: Vec<String> = Vec::new();
    match recorded {
        None => {
            lines.push(info_line("PR: not yet created"));
            lines.push(hint_line("Run `ez submit` to create a PR."));
        },
        Some(n) => match &found {
            Some(p) => {
                let s = pr_summary(p);
                let a = concat("PR: ", s.as_str());
                let b = concat(a.as_str(), " — ");
                let c = concat(b.as_str(), p.title.as_str());
                lines.push(info_line(c.as_str()));
                lines.push(hint_line(p.url.as_str()));
            },
            None => {
                let badge = pr_badge(n, "OPEN", false);
                let a = concat("PR: ", badge.as_str());
                lines.push(info_line(a.as_str()));
            },
        },
    }
    proof {
        assert(views(lines@) =~= status_pr_text(
            recorded,
            match found {
                Some(p) => Some(p@),
                None => None,
            },
        ));
    }
    lines
}

/// The walk from the trunk down to the branch, the branch in bold.
pub open spec fn position_names(path: Seq<Seq<char>>, current: Seq<char>) -> Seq<Seq<char>> {
    path.reverse().map_values(|b: Seq<char>| branch_display_text(b, b == current))
}

/// The stack position line of `ez status`: how many steps the branch is
/// above the end of its walk to the trunk, and that walk, trunk first.
pub open spec fn status_position_text(state: StackState, current: Seq<char>) -> Seq<char> {
    let path = state.trunk_path(current);
    info_text(
        "Stack position: "@ + decimal((path.len() - 1) as nat) + " deep ("@ + join(
            position_names(path, current),
            " → "@,
        ) + ")"@,
    )
}

pub fn status_position_line(state: &StackState, current: &str) -> (line: String)
    ensures
        line@ == status_position_text(*state, current@),
{
    let path = state.path_to_trunk(current);
    let n = path.len();
    let mut shown: Vec<String> = Vec::new();
    let mut i: usize = 0;
    while i < n
        invariant
            n == path@.len(),
            n >= 1,
            i <= n,
            views(path@) == state.trunk_path(current@),
            views(shown@) == position_names(views(path@), current@).take(i as int),
        decreases n - i,
    {
        let b = &path[n - 1 - i];
        let is_cur = crate::text::str_eq(b.as_str(), current);
        let d = branch_display(b.as_str(), is_cur);
        let ghost before = views(shown@);
        shown.push(d);
        proof {
            assert(views(shown@) =~= before.push(d@));
            assert(views(path@)[n - 1 - i] == path@[n - 1 - i]@);
            assert(views(path@).reverse()[i as int] == path@[n - 1 - i]@);
            assert(position_names(views(path@), current@)[i as int] == d@);
            assert(views(shown@) =~= position_names(views(path@), current@).take(i + 1));
        }
        i += 1;
    }
    proof {
        assert(position_names(views(path@), current@).take(n as int) =~= position_names(views(path@), current@));
    }
    let joined = join_strings(&shown, " → ");
    let depth = u64_to_decimal((n - 1) as u64);
    let a = concat("Stack position: ", depth.as_str());
    let b = concat(a.as_str(), " deep (");
    let c = concat(b.as_str(), joined.as_str());
    let d = concat(c.as_str(), ")");
    info_line(d.as_str())
}

/// One commit under the commit count: its short hash, faint, and its message.
pub open spec fn commit_lines(commits: Seq<(String, String)>) -> Seq<Seq<char>> {
    commits.map_values(|c: (String, String)| "  "@ + dim_text(c.0@) + " "@ + c.1@)
}

/// The commit lines of `ez status` for the commits on the branch.
pub open spec fn status_commits_text(commits: Seq<(String, String)>) -> Seq<Seq<char>> {
    if commits.len() == 0 {
        seq![info_text("Commits: none"@)]
    } else {
        seq![
            info_text(
                "Commits: "@ + decimal(commits.len()) + " "@ + if commits.len() == 1 {
                    "commit"@
                } else {
                    "commits"@
                },
            ),
        ] + commit_lines(commits)
    }
}

pub fn status_commit_lines(commits: &Vec<(String, String)>) -> (lines: Vec<String>)
    ensures
        views(lines@) == status_commits_text(commits@),
{
    let mut lines: Vec<String> = Vec::new();
    let n = commits.len();
    if n == 0 {
        lines.push(info_line("Commits: none"));
        proof {
            assert(views(lines@) =~= status_commits_text(commits@));
        }
        return lines;
    }
    let count = concat(u64_to_decimal(n as u64).as_str(), if n == 1 { " commit" } else { " commits" });
    let head = concat("Commits: ", count.as_str());
    let first_line = info_line(head.as_str());
    lines.push(first_line);
    proof {
        reveal_strlit(" commit");
        reveal_strlit(" commits");
        reveal_strlit(" ");
        reveal_strlit("commit");
        reveal_strlit("commits");
        assert(" commit"@ =~= " "@ + "commit"@);
        assert(" commits"@ =~= " "@ + "commits"@);
        assert(views(lines@) =~= seq![first_line@]);
        assert(first_line@ =~= status_commits_text(commits@)[0]);
    }
    let ghost first = views(lines@);
    for i in 0..n
        invariant
            n == commits@.len(),
            views(lines@) == first + commit_lines(commits@.take(i as int)),
    {
        let sha = dim(commits[i].0.as_str());
        let a = concat("  ", sha.as_str());
        let b = concat(a.as_str(), " ");
        let c = concat(b.as_str(), commits[i].1.as_str());
        let ghost before = views(lines@);
        lines.push(c);
        proof {
            assert(commit_lines(commits@.take(i + 1)) =~= commit_lines(commits@.take(i as int)).push(
                "  "@ + dim_text(commits@[i as int].0@) + " "@ + commits@[i as int].1@,
            ));
            assert(views(lines@) =~= before.push(c@));
            assert(views(lines@) =~= first + commit_lines(commits@.take(i + 1)));
        }
    }
    proof {
        assert(commits@.take(n as int) =~= commits@);
        assert(views(lines@) =~= status_commits_text(commits@));
    }
    lines
}

/// The warning of `ez status` when the parent's tip is not the head the
/// branch was stacked on; nothing otherwise.
pub open spec fn status_restack_text(parent_head: Seq<char>, parent_tip: Seq<char>) -> Seq<Seq<char>> {
    if parent_head != parent_tip {
        seq![warn_text("Branch may need restacking — parent has moved."@), hint_text("Run `ez restack` to update."@)]
    } else {
        Seq::empty()
    }
}

pub fn status_restack_lines(parent_head: &str, parent_tip: &str) -> (lines: Vec<String>)
    ensures
        views(lines@) == status_restack_text(parent_head@, parent_tip@),
{
    let mut lines: Vec<String> = Vec::new();
    if !crate::text::str_eq(parent_head, parent_tip) {
        lines.push(warn_line("Branch may need restacking — parent has moved."));
        lines.push(hint_line("Run `ez restack` to update."));
    }
    proof {
        assert(views(lines@) =~= status_restack_text(parent_head@, parent_tip@));
    }
    lines
}

} // verus!
