use ez_stack::cmd::log::{log_line, tree_rows};
use ez_stack::cmd::status::{
    status_commit_lines, status_intro, status_position_line, status_pr_lines, status_restack_lines,
};
use ez_stack::error::EzError;
use ez_stack::github::PrInfo;
use ez_stack::stack::StackState;
use ez_stack::ui::{branch_display, dim, pr_badge, tree_line};

fn stack() -> StackState {
    let mut s = StackState::new("main".to_string());
    s.add_branch("a", "main", "m1");
    s.add_branch("b", "a", "a1");
    s.add_branch("c", "a", "a1");
    s
}

fn pr(number: u64, state: &str, draft: bool) -> PrInfo {
    PrInfo {
        number,
        url: format!("https://x/pull/{number}"),
        state: state.to_string(),
        title: "Title".to_string(),
        base: "main".to_string(),
        is_draft: draft,
        merged: false,
    }
}

#[test]
fn display_helpers() {
    assert_eq!(dim("x"), "\x1b[2mx\x1b[0m");
    assert_eq!(branch_display("a", true), "\x1b[1ma\x1b[0m");
    assert_eq!(branch_display("a", false), "a");
    assert_eq!(pr_badge(12, "OPEN", false), "#12 open");
    assert_eq!(pr_badge(12, "OPEN", true), "#12 (draft)");
    assert_eq!(tree_line(1, true, &vec![], "t"), "└── t");
    assert_eq!(tree_line(3, false, &vec![true, false, true], "t"), "│       ├── t");
}

#[test]
fn log_lines_mark_only_the_current_branch() {
    let mut s = stack();
    s.get_branch_mut("b").unwrap().pr_number = Some(4);
    let rows = tree_rows(&s);
    let a = &rows[0];
    let b = &rows[1];
    let c = &rows[2];
    assert_eq!(
        log_line(&s, a, "c", None, 1).unwrap(),
        format!("└── a{}", dim(" 1 commit"))
    );
    assert_eq!(
        log_line(&s, b, "c", Some(pr(4, "MERGED", false)), 3).unwrap(),
        format!("├── b (#4 merged MERGED){}", dim(" 3 commits"))
    );
    assert_eq!(
        log_line(&s, b, "c", None, 0).unwrap(),
        format!("├── b (#4 open){}", dim(" 0 commits"))
    );
    assert_eq!(
        log_line(&s, c, "c", None, 2).unwrap(),
        format!("└── {}{}     {}", branch_display("c", true), dim(" 2 commits"), dim("← current"))
    );
    s.remove_branch("c");
    assert!(matches!(log_line(&s, c, "c", None, 2), Err(EzError::BranchNotInStack(n)) if n == "c"));
}

#[test]
fn status_sections() {
    let s = stack();
    let (lines, more) = status_intro(&s, "main");
    assert!(!more);
    assert_eq!(lines, vec![format!("On trunk branch: {}", branch_display("main", true)), "  1 stacked branch(es):".to_string(), "  a".to_string()]);
    let (lines, more) = status_intro(&s, "scratch");
    assert!(!more);
    assert_eq!(lines[0], "! Branch `scratch` is not tracked by ez.");
    let (lines, more) = status_intro(&s, "a");
    assert!(more);
    assert_eq!(lines, vec![format!("Branch: {}", branch_display("a", true)), "  Parent: main".to_string(), "  Children: b, c".to_string()]);
    let (lines, _) = status_intro(&s, "c");
    assert_eq!(lines[2], "  Children: none (top of stack)");

    assert_eq!(status_pr_lines(None, None), vec!["  PR: not yet created", "  → Run `ez submit` to create a PR."]);
    assert_eq!(status_pr_lines(Some(9), None), vec!["  PR: #9 open"]);
    assert_eq!(
        status_pr_lines(Some(9), Some(pr(9, "OPEN", true))),
        vec!["  PR: #9 (draft) draft — Title", "  → https://x/pull/9"]
    );
    assert_eq!(
        status_position_line(&s, "b"),
        format!("  Stack position: 2 deep (main → a → {})", branch_display("b", true))
    );
    assert_eq!(status_commit_lines(&vec![]), vec!["  Commits: none"]);
    let commits = vec![("abc".to_string(), "fix".to_string())];
    assert_eq!(status_commit_lines(&commits), vec!["  Commits: 1 commit".to_string(), format!("  {} fix", dim("abc"))]);
    assert!(status_restack_lines("h1", "h1").is_empty());
    assert_eq!(status_restack_lines("h1", "h2").len(), 2);
}
