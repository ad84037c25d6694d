use ez_stack::cmd::list::{list_entries, list_specs, list_table, shows_untracked, untracked_row};
use ez_stack::cmd::skill::{install_action, SkillAction};
use ez_stack::cmd::amend;
use ez_stack::cmd::branch::branch_line;
use ez_stack::cmd::commit::{check_stack_branch, check_staged, ChildRestack};
use ez_stack::cmd::delete::reparent_children;
use ez_stack::cmd::init::check_init;
use ez_stack::cmd::list::{branch_entry, branch_row, format_age, row, status_label, trunk_entry, BranchData};
use ez_stack::json::JsonValue;
use ez_stack::cmd::log::tree_rows;
use ez_stack::cmd::pr_edit::pr_to_edit;
use ez_stack::cmd::restack::{Restack, RestackRequest};
use ez_stack::dev::dev_port;
use ez_stack::error::EzError;
use ez_stack::hooks::{hook_file_name, hook_heading, hook_instructions, hook_names};
use ez_stack::stack::StackState;

fn stack() -> StackState {
    let mut s = StackState::new("main".to_string());
    s.add_branch("a", "main", "m1");
    s.add_branch("b", "a", "a1");
    s.add_branch("c", "a", "a1");
    s.add_branch("d", "b", "b1");
    s
}

#[test]
fn stack_branch_checks() {
    let s = stack();
    assert!(matches!(check_stack_branch(&s, "main"), Err(EzError::OnTrunk)));
    assert!(matches!(check_stack_branch(&s, "zz"), Err(EzError::BranchNotInStack(n)) if n == "zz"));
    assert!(check_stack_branch(&s, "a").is_ok());
    assert!(check_staged(true).is_ok());
    assert!(matches!(check_staged(false), Err(EzError::NothingToCommit)));
    assert!(amend::check_staged(true, false).is_ok());
    assert!(amend::check_staged(false, true).is_ok());
    assert!(matches!(amend::check_staged(false, false), Err(EzError::NothingToCommit)));
    assert!(matches!(check_init(false, false), Err(EzError::NotARepo)));
    assert!(matches!(check_init(true, true), Err(EzError::AlreadyInitialized)));
    assert!(check_init(true, false).is_ok());
}

#[test]
fn children_restack_onto_new_head() {
    let mut s = stack();
    let mut run = ChildRestack::new(&s, "a", "new".to_string());
    assert_eq!(run.children, vec!["b", "c"]);
    let q = run.request(&s).unwrap().unwrap();
    assert_eq!((q.onto.as_str(), q.upstream.as_str(), q.branch.as_str()), ("new", "a1", "b"));
    run.rebased(&mut s, true).unwrap();
    assert_eq!(s.get_branch("b").unwrap().parent_head, "new");
    let q = run.request(&s).unwrap().unwrap();
    assert_eq!(q.branch, "c");
    assert!(matches!(run.rebased(&mut s, false), Err(EzError::RebaseConflict(n)) if n == "c"));
    assert_eq!(s.get_branch("c").unwrap().parent_head, "a1");
    run.rebased(&mut s, true).unwrap();
    assert!(run.request(&s).unwrap().is_none());
}

#[test]
fn restack_moves_stale_branches_parents_first() {
    let mut s = stack();
    let mut r = Restack::new(&s);
    let tips = [("main", "m2"), ("a", "a1"), ("b", "b9"), ("c", "a1")];
    let mut rebased = Vec::new();
    loop {
        match r.request(&s).unwrap() {
            RestackRequest::Finished { restacked } => {
                assert_eq!(restacked, 2);
                break;
            }
            RestackRequest::ParentTip { branch, parent } => {
                let tip = tips.iter().find(|(p, _)| *p == parent).unwrap().1.to_string();
                if let Some(q) = r.parent_tip(&s, tip).unwrap() {
                    rebased.push((q.branch.clone(), q.upstream.clone(), q.onto.clone()));
                    assert_eq!(q.branch, branch);
                    r.rebased(&mut s, true).unwrap();
                }
            }
        }
    }
    assert_eq!(rebased, vec![("a".to_string(), "m1".to_string(), "m2".to_string()), ("d".to_string(), "b1".to_string(), "b9".to_string())]);
    assert_eq!(s.get_branch("a").unwrap().parent_head, "m2");
    assert_eq!(s.get_branch("d").unwrap().parent_head, "b9");
}

#[test]
fn restack_stops_at_conflict() {
    let mut s = stack();
    let mut r = Restack::new(&s);
    match r.request(&s).unwrap() {
        RestackRequest::ParentTip { branch, parent } => {
            assert_eq!((branch.as_str(), parent.as_str()), ("a", "main"));
        }
        _ => panic!("a question expected"),
    }
    assert!(r.parent_tip(&s, "m2".to_string()).unwrap().is_some());
    assert!(matches!(r.rebased(&mut s, false), Err(EzError::RebaseConflict(n)) if n == "a"));
    assert_eq!(s.get_branch("a").unwrap().parent_head, "m1");
}

#[test]
fn delete_reparents_children() {
    let mut s = stack();
    let d = reparent_children(&mut s, "a", "tipA".to_string()).unwrap();
    assert_eq!(d.parent, "main");
    assert_eq!(d.children, vec!["b", "c"]);
    assert_eq!(d.pr_number, None);
    for c in ["b", "c"] {
        let m = s.get_branch(c).unwrap();
        assert_eq!(m.parent, "main");
        assert_eq!(m.parent_head, "tipA");
    }
    assert_eq!(s.get_branch("d").unwrap().parent, "b");
    s.remove_branch("a");
    assert!(s.children_of("a").is_empty());
    assert!(matches!(reparent_children(&mut s, "a", "x".to_string()), Err(EzError::BranchNotInStack(n)) if n == "a"));
}

#[test]
fn pr_edit_target() {
    let mut s = stack();
    s.get_branch_mut("b").unwrap().pr_number = Some(31);
    assert_eq!(pr_to_edit(&s, "b").unwrap(), 31);
    assert!(matches!(pr_to_edit(&s, "main"), Err(EzError::OnTrunk)));
    match pr_to_edit(&s, "a") {
        Err(EzError::UserMessage(m)) => {
            assert_eq!(m, "No PR found for branch `a` — run `ez push` to create one first")
        }
        _ => panic!("refusal expected"),
    }
}

#[test]
fn ages_and_rows() {
    assert_eq!(format_age(Some(0)), "0s");
    assert_eq!(format_age(Some(59)), "59s");
    assert_eq!(format_age(Some(60)), "1m");
    assert_eq!(format_age(Some(3599)), "59m");
    assert_eq!(format_age(Some(3600)), "1h");
    assert_eq!(format_age(Some(86399)), "23h");
    assert_eq!(format_age(Some(86400)), "1d");
    assert_eq!(format_age(Some(10 * 86400 + 5)), "10d");
    assert_eq!(format_age(None), "-");
    let expected = format!("{:<4} {:<30} {:<8} {:<6} {:<6} {:<7} {}", "", "BRANCH", "PR", "CI", "AGE", "PORT", "STATUS");
    assert_eq!(row("", "BRANCH", "PR", "CI", "AGE", "PORT", "STATUS"), expected);
    let long = "x".repeat(40);
    assert_eq!(row(" *", &long, "#1", "✓", "2h", "-", "clean"), format!("{:<4} {:<30} {:<8} {:<6} {:<6} {:<7} {}", " *", long, "#1", "✓", "2h", "-", "clean"));
    assert_eq!(status_label(false, 1, 2, 3), "no worktree");
    assert_eq!(status_label(true, 0, 0, 0), "clean");
    assert_eq!(status_label(true, 2, 0, 3), "2S 3U");
    assert_eq!(status_label(true, 0, 4, 0), "4M");
    let line = branch_row("feat", true, Some(12), "", Some(120), true, 1, 0, 0);
    let port = dev_port("feat").to_string();
    assert_eq!(line, format!("{:<4} {:<30} {:<8} {:<6} {:<6} {:<7} {}", " *", "feat", "#12", "-", "2m", port, "1S"));
    let line = branch_row("feat", false, None, "⏳", None, false, 0, 0, 0);
    assert_eq!(line, format!("{:<4} {:<30} {:<8} {:<6} {:<6} {:<7} {}", "  ", "feat", "-", "⏳", "-", "-", "no worktree"));
}

#[test]
fn branch_lines() {
    assert_eq!(branch_line(true, "a", Some(3), Some("/w/a")), "* a #3 /w/a");
    assert_eq!(branch_line(false, "a", None, None), "  a");
}

#[test]
fn log_tree_layout() {
    let s = stack();
    let rows = tree_rows(&s);
    let got: Vec<(String, usize, bool, Vec<bool>)> =
        rows.into_iter().map(|r| (r.branch, r.depth, r.is_last, r.ancestors_last)).collect();
    assert_eq!(
        got,
        vec![
            ("a".to_string(), 1, true, vec![]),
            ("b".to_string(), 2, false, vec![true]),
            ("d".to_string(), 3, true, vec![true, false]),
            ("c".to_string(), 2, true, vec![true]),
        ]
    );
}

#[test]
fn hook_files_and_text() {
    assert_eq!(hook_file_name(None), "default.md");
    assert_eq!(hook_file_name(Some("setup-node")), "setup-node.md");
    assert_eq!(hook_heading("post-create", None), "Hook: post-create");
    assert_eq!(hook_heading("post-create", Some("x")), "Hook: post-create/x");
    assert_eq!(hook_instructions("  \n\t"), None);
    assert_eq!(hook_instructions("\n do this \n"), Some("do this".to_string()));
    let files = vec!["default.md".to_string(), "notes.txt".to_string(), ".md".to_string(), "x.md.bak".to_string()];
    assert_eq!(hook_names(&files), vec!["default", ""]);
}

fn member<'a>(v: &'a JsonValue, key: &str) -> &'a JsonValue {
    v.get(key).expect("member present")
}

#[test]
fn list_json_entries() {
    let t = trunk_entry(&"main".to_string(), "main");
    assert!(matches!(member(&t, "branch"), JsonValue::String(s) if s == "main"));
    assert!(matches!(member(&t, "is_trunk"), JsonValue::Bool(true)));
    assert!(matches!(member(&t, "is_current"), JsonValue::Bool(true)));

    let with_wt = BranchData {
        name: "feat".to_string(),
        pr_number: Some(4),
        parent: "main".to_string(),
        wt_path: Some("/w/feat".to_string()),
        ci: String::new(),
        age: Some(30),
        wt_status: (1, 2, 3),
    };
    let e = branch_entry(&with_wt, "other");
    assert!(matches!(member(&e, "is_current"), JsonValue::Bool(false)));
    assert!(matches!(member(&e, "parent"), JsonValue::String(s) if s == "main"));
    assert!(matches!(member(&e, "pr_number"), JsonValue::Number(Some(4))));
    assert!(matches!(member(&e, "ci_status"), JsonValue::Null));
    assert!(matches!(member(&e, "last_activity_secs"), JsonValue::Number(Some(30))));
    let port = dev_port("feat") as u64;
    assert!(matches!(member(&e, "dev_port"), JsonValue::Number(Some(p)) if *p == port));
    assert!(matches!(member(&e, "worktree_path"), JsonValue::String(s) if s == "/w/feat"));
    let wt = member(&e, "working_tree");
    assert!(matches!(member(wt, "staged"), JsonValue::Number(Some(1))));
    assert!(matches!(member(wt, "modified"), JsonValue::Number(Some(2))));
    assert!(matches!(member(wt, "untracked"), JsonValue::Number(Some(3))));

    let bare = BranchData {
        name: "x".to_string(),
        pr_number: None,
        parent: "feat".to_string(),
        wt_path: None,
        ci: "✓".to_string(),
        age: None,
        wt_status: (0, 0, 0),
    };
    let e = branch_entry(&bare, "x");
    assert!(matches!(member(&e, "is_current"), JsonValue::Bool(true)));
    assert!(matches!(member(&e, "pr_number"), JsonValue::Null));
    assert!(matches!(member(&e, "ci_status"), JsonValue::String(s) if s == "✓"));
    assert!(matches!(member(&e, "dev_port"), JsonValue::Null));
    assert!(matches!(member(&e, "worktree_path"), JsonValue::Null));
    assert!(matches!(member(&e, "working_tree"), JsonValue::Null));
}

fn run_restack(s: &mut StackState, tips: &mut std::collections::HashMap<String, String>) -> (usize, Vec<String>) {
    let mut r = Restack::new(s);
    let mut moved = Vec::new();
    loop {
        match r.request(s).unwrap() {
            RestackRequest::Finished { restacked } => return (restacked, moved),
            RestackRequest::ParentTip { branch, parent } => {
                let tip = tips[&parent].clone();
                if r.parent_tip(s, tip).unwrap().is_some() {
                    r.rebased(s, true).unwrap();
                    tips.insert(branch.clone(), format!("{branch}-moved"));
                    moved.push(branch);
                }
            }
        }
    }
}

#[test]
fn second_restack_moves_nothing() {
    let mut s = stack();
    let mut tips: std::collections::HashMap<String, String> =
        [("main", "m2"), ("a", "a1"), ("b", "b1"), ("c", "c1"), ("d", "d1")]
            .iter()
            .map(|(k, v)| (k.to_string(), v.to_string()))
            .collect();
    let (first, moved) = run_restack(&mut s, &mut tips);
    assert_eq!(first, 4);
    assert_eq!(moved.len(), 4);
    assert_eq!(moved[0], "a");
    let (second, again) = run_restack(&mut s, &mut tips);
    assert_eq!(second, 0);
    assert!(again.is_empty());
}

#[test]
fn list_table_lines() {
    let data = vec![
        BranchData {
            name: "a".to_string(),
            pr_number: Some(7),
            parent: "main".to_string(),
            wt_path: None,
            ci: "✓".to_string(),
            age: Some(120),
            wt_status: (0, 0, 0),
        },
        BranchData {
            name: "b".to_string(),
            pr_number: None,
            parent: "a".to_string(),
            wt_path: Some("/w/b".to_string()),
            ci: String::new(),
            age: None,
            wt_status: (1, 0, 2),
        },
    ];
    let lines = list_table("main", "b", "3h", &data);
    assert_eq!(lines.len(), 5);
    assert_eq!(lines[0], row("", "BRANCH", "PR", "CI", "AGE", "PORT", "STATUS"));
    assert_eq!(lines[1], "-".repeat(80));
    assert_eq!(lines[2], row("  ", "main (trunk)", "-", "-", "3h", "-", "-"));
    assert_eq!(lines[3], row("  ", "a", "#7", "✓", "2m", "-", "no worktree"));
    assert_eq!(lines[4], row(" *", "b", "-", "-", "-", &dev_port("b").to_string(), "1S 2U"));
    let on_trunk = list_table("main", "main", "-", &[]);
    assert_eq!(on_trunk.len(), 3);
    assert_eq!(on_trunk[2], row(" *", "main (trunk)", "-", "-", "-", "-", "-"));

    let s = stack();
    assert!(!shows_untracked(&s, "main"));
    assert!(!shows_untracked(&s, "a"));
    assert!(shows_untracked(&s, "scratch"));
    assert_eq!(untracked_row("scratch", Some(5)), row(" *", "scratch", "-", "-", "5s", "-", "not tracked"));
}

#[test]
fn list_specs_and_entries() {
    let mut s = stack();
    s.add_branch("lost", "gone", "h");
    let specs = list_specs(&s);
    let names: Vec<&str> = specs.iter().map(|e| e.0.as_str()).collect();
    assert_eq!(names.len(), 5);
    assert!(!names.contains(&"gone"));
    let pos = |n: &str| names.iter().position(|b| *b == n).unwrap();
    assert!(pos("a") < pos("b") && pos("b") < pos("d") && pos("a") < pos("c"));
    let b = specs.iter().find(|e| e.0 == "b").unwrap();
    assert_eq!((b.1, b.2.as_str()), (None, "a"));

    let data = vec![BranchData {
        name: "a".to_string(),
        pr_number: None,
        parent: "main".to_string(),
        wt_path: None,
        ci: String::new(),
        age: Some(1),
        wt_status: (0, 0, 0),
    }];
    let entries = list_entries(&"main".to_string(), "a", &data);
    assert_eq!(entries.len(), 2);
    assert!(matches!(entries[0].get("is_trunk"), Some(JsonValue::Bool(true))));
    assert!(matches!(entries[0].get("is_current"), Some(JsonValue::Bool(false))));
    assert!(matches!(entries[1].get("branch"), Some(JsonValue::String(n)) if n == "a"));
    assert!(matches!(entries[1].get("is_current"), Some(JsonValue::Bool(true))));
    assert!(matches!(entries[1].get("ci_status"), Some(JsonValue::Null)));
    assert!(matches!(entries[1].get("dev_port"), Some(JsonValue::Null)));
}

#[test]
fn skill_install_writes_only_when_needed() {
    assert_eq!(install_action(None, "text"), SkillAction::Install);
    assert_eq!(install_action(Some("text"), "text"), SkillAction::UpToDate);
    assert_eq!(install_action(Some("old"), "text"), SkillAction::Update);
}
