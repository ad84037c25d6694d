use ez_stack::stack::StackState;

// Concrete cases of the laws that src/laws.rs proves.

#[test]
fn walking_up_an_acyclic_stack_reaches_trunk() {
    let mut s = StackState::new("main".to_string());
    s.add_branch("a", "main", "h");
    s.add_branch("b", "a", "h");
    assert_eq!(s.path_to_trunk("b").last().unwrap(), "main");
}

#[test]
fn walking_down_reaches_a_branch_without_children() {
    let mut s = StackState::new("main".to_string());
    s.add_branch("a", "main", "h");
    s.add_branch("b", "a", "h");
    s.add_branch("b2", "a", "h");
    let top = s.stack_top("main");
    assert_eq!(top, "b");
    assert!(s.children_of(&top).is_empty());
}

#[test]
fn log_tree_shows_deepest_branch_of_a_line() {
    let mut s = StackState::new("main".to_string());
    s.add_branch("l1", "main", "h0");
    s.add_branch("l2", "l1", "h1");
    s.add_branch("l3", "l2", "h2");
    s.add_branch("l4", "l3", "h3");
    let rows = ez_stack::cmd::log::tree_rows(&s);
    let names: Vec<(String, usize)> = rows.into_iter().map(|r| (r.branch, r.depth)).collect();
    assert_eq!(
        names,
        vec![
            ("l1".to_string(), 1),
            ("l2".to_string(), 2),
            ("l3".to_string(), 3),
            ("l4".to_string(), 4),
        ]
    );
}

#[test]
fn walk_up_from_the_top_passes_the_branch() {
    let mut s = StackState::new("main".to_string());
    s.add_branch("a", "main", "h");
    s.add_branch("b", "a", "h");
    s.add_branch("c", "b", "h");
    s.add_branch("x", "gone", "h");
    let top = s.stack_top("a");
    assert_eq!(top, "c");
    assert!(s.children_of(&top).is_empty());
    assert_eq!(s.path_to_trunk(&top), vec!["c", "b", "a", "main"]);
}
