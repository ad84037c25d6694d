use vstd::prelude::*;

use crate::error::EzError;
use crate::github::{PrInfo, PrInfoView};
use crate::stack::StackState;
use crate::text::{concat, decimal, u64_to_decimal, views};
use crate::ui::{
    badge_text, branch_display, branch_display_text, dim, dim_text, pr_badge, tree_line, tree_prefix_text,
};

verus! {

/// One line of the stack tree: a branch, its depth below the trunk, whether
/// it is the last child of its parent, and the same for each of its ancestors.
pub struct TreeRow {
    pub branch: String,
    pub depth: usize,
    pub is_last: bool,
    pub ancestors_last: Vec<bool>,
}

pub struct TreeRowView {
    pub branch: Seq<char>,
    pub depth: nat,
    pub is_last: bool,
    pub ancestors_last: Seq<bool>,
}

impl View for TreeRow {
    type V = TreeRowView;

    open spec fn view(&self) -> TreeRowView {
        TreeRowView {
            branch: self.branch@,
            depth: self.depth as nat,
            is_last: self.is_last,
            ancestors_last: self.ancestors_last@,
        }
    }
}

pub open spec fn row_views(rows: Seq<TreeRow>) -> Seq<TreeRowView> {
    rows.map_values(|r: TreeRow| r@)
}

impl StackState {
    /// The tree under `branch`, depth first, children in dictionary order,
    /// going at most `fuel` levels deep.
    pub open spec fn tree_from(self, branch: Seq<char>, depth: nat, is_last: bool, anc: Seq<bool>, fuel: nat) -> Seq<
        TreeRowView,
    >
        decreases fuel, 0nat,
    {
        if fuel == 0 {
            Seq::empty()
        } else {
            let kids = self.sorted_children(branch);
            seq![TreeRowView { branch, depth, is_last, ancestors_last: anc }] + self.trees_of(
                kids,
                kids.len(),
                depth + 1,
                anc.push(is_last),
                (fuel - 1) as nat,
            )
        }
    }

    /// The trees under the first `n` of `kids`, one after the other.
    pub open spec fn trees_of(self, kids: Seq<Seq<char>>, n: nat, depth: nat, anc: Seq<bool>, fuel: nat) -> Seq<
        TreeRowView,
    >
        decreases fuel, n,
    {
        if n == 0 {
            Seq::empty()
        } else {
            self.trees_of(kids, (n - 1) as nat, depth, anc, fuel) + self.tree_from(
                kids[n - 1],
                depth,
                n - 1 == kids.len() - 1,
                anc,
                fuel,
            )
        }
    }
}

fn push_tree(
    state: &StackState,
    branch: &str,
    depth: usize,
    is_last: bool,
    anc: &Vec<bool>,
    fuel: usize,
    out: &mut Vec<TreeRow>,
)
    requires
        depth + fuel <= usize::MAX,
    ensures
        row_views(final(out)@) == row_views(old(out)@) + state.tree_from(branch@, depth as nat, is_last, anc@, fuel as nat),
    decreases fuel, 0nat,
{
    if fuel == 0 {
        proof {
            assert(row_views(out@) =~= row_views(out@) + Seq::<TreeRowView>::empty());
        }
        return;
    }
    let ghost start = row_views(out@);
    let anc_copy = anc.clone();
    proof {
        assert(anc_copy@ =~= anc@);
    }
    out.push(TreeRow { branch: branch.to_string(), depth, is_last, ancestors_last: anc_copy });
    let kids = state.children_of(branch);
    let mut child_anc = anc.clone();
    proof {
        assert(child_anc@ =~= anc@);
    }
    child_anc.push(is_last);
    let n = kids.len();
    let ghost first = row_views(out@);
    proof {
        assert(first =~= start + seq![TreeRowView { branch: branch@, depth: depth as nat, is_last, ancestors_last: anc@ }]);
        assert(row_views(out@) =~= first + state.trees_of(views(kids@), 0, (depth + 1) as nat, child_anc@, (fuel - 1) as nat));
    }
    let mut i: usize = 0;
    while i < n
        invariant
            n == kids@.len(),
            i <= n,
            depth + fuel <= usize::MAX,
            fuel >= 1,
            views(kids@) == state.sorted_children(branch@),
            row_views(out@) == first + state.trees_of(views(kids@), i as nat, (depth + 1) as nat, child_anc@, (fuel - 1) as nat),
        decreases n - i,
    {
        let ghost before = row_views(out@);
        push_tree(state, kids[i].as_str(), depth + 1, i + 1 == n, &child_anc, fuel - 1, out);
        proof {
            assert(views(kids@)[i as int] == kids@[i as int]@);
            assert(row_views(out@) =~= first + state.trees_of(views(kids@), (i + 1) as nat, (depth + 1) as nat, child_anc@, (fuel - 1) as nat));
        }
        i += 1;
    }
    proof {
        assert(child_anc@ == anc@.push(is_last));
        assert(row_views(out@) =~= start + state.tree_from(branch@, depth as nat, is_last, anc@, fuel as nat));
    }
}

/// The lines of `ez log` below the trunk: the tree of each child of the
/// trunk, in dictionary order, each branch at most as deep as the stack has
/// branches.
pub fn tree_rows(state: &StackState) -> (rows: Vec<TreeRow>)
    ensures
        row_views(rows@) == state.trees_of(
            state.sorted_children(state.trunk@),
            state.sorted_children(state.trunk@).len(),
            1,
            Seq::empty(),
            if state.branches.key_seq().len() < usize::MAX { state.branches.key_seq().len() } else { (usize::MAX - 1) as nat },
        ),
{
    let kids = state.children_of(state.trunk.as_str());
    let len = state.branches.len();
    let fuel = if len < usize::MAX { len } else { usize::MAX - 1 };
    let anc: Vec<bool> = Vec::new();
    let mut out: Vec<TreeRow> = Vec::new();
    let n = kids.len();
    proof {
        assert(row_views(out@) =~= state.trees_of(views(kids@), 0, 1, anc@, fuel as nat));
        assert(anc@ =~= Seq::<bool>::empty());
    }
    let mut i: usize = 0;
    while i < n
        invariant
            n == kids@.len(),
            i <= n,
            fuel < usize::MAX,
            anc@ == Seq::<bool>::empty(),
            views(kids@) == state.sorted_children(state.trunk@),
            row_views(out@) == state.trees_of(views(kids@), i as nat, 1, anc@, fuel as nat),
        decreases n - i,
    {
        push_tree(state, kids[i].as_str(), 1, i + 1 == n, &anc, fuel, &mut out);
        proof {
            assert(views(kids@)[i as int] == kids@[i as int]@);
            assert(row_views(out@) =~= state.trees_of(views(kids@), (i + 1) as nat, 1, anc@, fuel as nat));
        }
        i += 1;
    }
    out
}

/// A pull request's badge and its state ("draft" for a draft).
pub open spec fn pr_summary_text(pr: PrInfoView) -> Seq<char> {
    badge_text(pr.number, pr.state, pr.is_draft) + " "@ + if pr.is_draft {
        "draft"@
    } else {
        pr.state
    }
}

pub fn pr_summary(pr: &PrInfo) -> (t: String)
    ensures
        t@ == pr_summary_text(pr@),
{
    let badge = pr_badge(pr.number, pr.state.as_str(), pr.is_draft);
    let a = concat(badge.as_str(), " ");
    if pr.is_draft {
        concat(a.as_str(), "draft")
    } else {
        concat(a.as_str(), pr.state.as_str())
    }
}

pub open spec fn opt_pr_view(pr: Option<PrInfo>) -> Option<PrInfoView> {
    match pr {
        Some(p) => Some(p@),
        None => None,
    }
}

/// The pull request part of a tree line: nothing for a branch without a
/// recorded pull request; the looked-up pull request when the lookup gave
/// one; otherwise the recorded number, shown as open.
pub open spec fn pr_part_text(recorded: Option<u64>, found: Option<PrInfoView>) -> Seq<char> {
    match recorded {
        None => Seq::empty(),
        Some(n) => match found {
            Some(p) => " ("@ + pr_summary_text(p) + ")"@,
            None => " ("@ + badge_text(n, "OPEN"@, false) + ")"@,
        },
    }
}

/// The commit count of a tree line, faint.
pub open spec fn commits_text(n: nat) -> Seq<char> {
    if n == 1 {
        dim_text(" 1 commit"@)
    } else {
        dim_text(" "@ + decimal(n) + " commits"@)
    }
}

/// The marker after the current branch's line, and nothing after any other.
pub open spec fn marker_text(is_current: bool) -> Seq<char> {
    if is_current {
        "     "@ + dim_text("← current"@)
    } else {
        Seq::empty()
    }
}

/// The line `ez log` prints for `row`: the tree drawing, the branch (bold
/// when current), its pull request, its commit count, and the marker
/// exactly when the row's branch is the current branch.
pub open spec fn log_line_text(
    row: TreeRowView,
    current: Seq<char>,
    recorded: Option<u64>,
    found: Option<PrInfoView>,
    commits: nat,
) -> Seq<char> {
    tree_prefix_text(row.depth, row.is_last, row.ancestors_last) + branch_display_text(row.branch, row.branch == current)
        + pr_part_text(recorded, found) + commits_text(commits) + marker_text(row.branch == current)
}

/// The line of `ez log` for one row of the tree, given the pull request
/// that the lookup found (if any) and the number of commits on the branch;
/// refused for a branch the stack does not record.
pub fn log_line(state: &StackState, row: &TreeRow, current: &str, found: Option<PrInfo>, commits: usize) -> (r: Result<
    String,
    EzError,
>)
    ensures
        match r {
            Ok(line) => state.managed(row.branch@) && line@ == log_line_text(
                row@,
                current@,
                state.meta(row.branch@).pr_number,
                opt_pr_view(found),
                commits as nat,
            ),
            Err(e) => !state.managed(row.branch@) && (e matches EzError::BranchNotInStack(n) && n@ == row.branch@),
        },
{
    let meta = state.get_branch(row.branch.as_str())?;
    let is_current = crate::text::str_eq(row.branch.as_str(), current);
    let name = branch_display(row.branch.as_str(), is_current);
    let pr_text = match meta.pr_number {
        None => String::new(),
        Some(n) => {
            let inner = match &found {
                Some(p) => pr_summary(p),
                None => pr_badge(n, "OPEN", false),
            };
            let a = concat(" (", inner.as_str());
            concat(a.as_str(), ")")
        },
    };
    let commit_text = if commits == 1 {
        dim(" 1 commit")
    } else {
        let a = concat(" ", u64_to_decimal(commits as u64).as_str());
        let b = concat(a.as_str(), " commits");
        dim(b.as_str())
    };
    let marker = if is_current {
        let d = dim("← current");
        concat("     ", d.as_str())
    } else {
        String::new()
    };
    let t1 = concat(name.as_str(), pr_text.as_str());
    let t2 = concat(t1.as_str(), commit_text.as_str());
    let text = concat(t2.as_str(), marker.as_str());
    let line = tree_line(row.depth, row.is_last, &row.ancestors_last, text.as_str());
    proof {
        assert(line@ =~= log_line_text(
            row@,
            current@,
            state.meta(row.branch@).pr_number,
            opt_pr_view(found),
            commits as nat,
        ));
    }
    Ok(line)
}

} // verus!
