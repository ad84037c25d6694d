use ez_stack::cmd::checkout::{
    default_selection, find_branch_by_pr, is_ez_worktree, parse_pr_number, resolve_target,
    selector_branches,
};
use ez_stack::names::NameMap;
use ez_stack::stack::{BranchMeta, StackState};

fn state_with_pr() -> StackState {
    let mut branches = NameMap::new();
    branches.insert(
        "feat/x".to_string(),
        BranchMeta {
            name: "feat/x".to_string(),
            parent: "main".to_string(),
            parent_head: "abc".to_string(),
            pr_number: Some(99),
        },
    );
    StackState {
        trunk: "main".to_string(),
        remote: "origin".to_string(),
        branches,
    }
}

#[test]
fn test_find_branch_by_pr_number() {
    let state = state_with_pr();
    let found = find_branch_by_pr(&state, 99);
    assert_eq!(found, Some("feat/x".to_string()));
}

#[test]
fn test_arg_parses_as_pr_number() {
    assert!(parse_pr_number("99").is_some());
    assert!(parse_pr_number("feat/x").is_none());
    assert!(parse_pr_number("0").is_some());
}

#[test]
fn parse_pr_number_follows_str_parse() {
    for arg in ["99", "+7", "0", "", "+", "-1", "12a", "18446744073709551615", "18446744073709551616", " 5"] {
        assert_eq!(parse_pr_number(arg), arg.parse::<u64>().ok(), "argument {arg:?}");
    }
}

#[test]
fn find_branch_by_pr_misses_unknown_number() {
    let state = state_with_pr();
    assert_eq!(find_branch_by_pr(&state, 100), None);
}

#[test]
fn resolve_target_by_number_name_and_refusals() {
    let state = state_with_pr();
    assert_eq!(resolve_target(&state, "99"), Ok("feat/x".to_string()));
    assert_eq!(resolve_target(&state, "main"), Ok("main".to_string()));
    assert_eq!(resolve_target(&state, "feat/x"), Ok("feat/x".to_string()));
    assert_eq!(
        resolve_target(&state, "7"),
        Err("No branch found with PR #7\n  → Run `ez branch` to see all branches".to_string())
    );
    assert_eq!(
        resolve_target(&state, "feat/y"),
        Err("Branch `feat/y` is not tracked by ez\n  → Run `ez branch` to see all branches".to_string())
    );
}

#[test]
fn selector_lists_trunk_then_sorted_branches() {
    let mut state = state_with_pr();
    state.add_branch("b", "main", "1");
    state.add_branch("a", "b", "2");
    let branches = selector_branches(&state);
    assert_eq!(branches, vec!["main", "a", "b", "feat/x"]);
    assert_eq!(default_selection(&branches, "b"), 2);
    assert_eq!(default_selection(&branches, "zzz"), 0);
}

#[test]
fn worktree_paths_under_dot_worktrees() {
    assert!(is_ez_worktree("/repo/.worktrees/feat-x"));
    assert!(!is_ez_worktree("/repo/feat-x"));
    assert!(!is_ez_worktree("/repo/.worktrees"));
}
