use ez_stack::error::EzError;
use ez_stack::stack::StackState;

fn stack() -> StackState {
    // main <- a <- b <- c, and main <- x
    let mut s = StackState::new("main".to_string());
    s.add_branch("c", "b", "hb");
    s.add_branch("b", "a", "ha");
    s.add_branch("x", "main", "hm");
    s.add_branch("a", "main", "hm");
    s
}

#[test]
fn new_state_is_empty_on_origin() {
    let s = StackState::new("trunk".to_string());
    assert_eq!(s.trunk, "trunk");
    assert_eq!(s.remote, "origin");
    assert_eq!(s.branches.len(), 0);
}

#[test]
fn add_then_get_gives_back_the_branch() {
    let mut s = stack();
    s.add_branch("d", "c", "hc");
    let m = s.get_branch("d").unwrap();
    assert_eq!(m.name, "d");
    assert_eq!(m.parent, "c");
    assert_eq!(m.parent_head, "hc");
    assert_eq!(m.pr_number, None);
    // Adding again replaces the record.
    s.add_branch("d", "a", "h2");
    assert_eq!(s.get_branch("d").unwrap().parent, "a");
    assert_eq!(s.branches.len(), 5);
}

#[test]
fn remove_forgets_only_that_branch() {
    let mut s = stack();
    s.remove_branch("b");
    assert!(!s.is_managed("b"));
    assert!(s.is_managed("a") && s.is_managed("c"));
    assert!(matches!(s.get_branch("b"), Err(EzError::BranchNotInStack(n)) if n == "b"));
    s.remove_branch("nope");
    assert_eq!(s.branches.len(), 3);
}

#[test]
fn get_branch_mut_changes_the_record() {
    let mut s = stack();
    s.get_branch_mut("a").unwrap().pr_number = Some(7);
    assert_eq!(s.get_branch("a").unwrap().pr_number, Some(7));
    assert!(s.get_branch_mut("zz").is_err());
}

#[test]
fn trunk_and_managed() {
    let s = stack();
    assert!(s.is_trunk("main"));
    assert!(!s.is_trunk("a"));
    assert!(s.is_managed("a"));
    assert!(!s.is_managed("main"));
}

#[test]
fn children_are_sorted() {
    let s = stack();
    assert_eq!(s.children_of("main"), vec!["a", "x"]);
    assert_eq!(s.children_of("a"), vec!["b"]);
    assert_eq!(s.children_of("c"), Vec::<String>::new());
}

#[test]
fn topo_order_puts_parents_first() {
    let s = stack();
    let order = s.topo_order();
    assert_eq!(order.len(), 4);
    let pos = |n: &str| order.iter().position(|b| b == n).unwrap();
    assert!(pos("a") < pos("b"));
    assert!(pos("b") < pos("c"));
    assert!(order.contains(&"x".to_string()));
}

#[test]
fn topo_order_lists_recorded_branches_only_and_survives_cycles() {
    let mut s = StackState::new("main".to_string());
    s.add_branch("a", "gone", "h");
    let order = s.topo_order();
    assert_eq!(order, vec!["a"]);

    let mut c = StackState::new("main".to_string());
    c.add_branch("p", "q", "h");
    c.add_branch("q", "p", "h");
    let order = c.topo_order();
    assert_eq!(order.len(), 2);
}

#[test]
fn path_to_trunk_walks_parents() {
    let s = stack();
    assert_eq!(s.path_to_trunk("c"), vec!["c", "b", "a", "main"]);
    assert_eq!(s.path_to_trunk("main"), vec!["main"]);
    assert_eq!(s.path_to_trunk("zz"), vec!["zz"]);
    let mut c = StackState::new("main".to_string());
    c.add_branch("p", "q", "h");
    c.add_branch("q", "p", "h");
    assert_eq!(c.path_to_trunk("p"), vec!["p", "q"]);
}

#[test]
fn stack_bottom_and_top() {
    let s = stack();
    assert_eq!(s.stack_bottom("c"), "a");
    assert_eq!(s.stack_bottom("a"), "a");
    assert_eq!(s.stack_bottom("main"), "main");
    assert_eq!(s.stack_top("a"), "c");
    assert_eq!(s.stack_top("c"), "c");
    assert_eq!(s.stack_top("main"), "c");
    let mut c = StackState::new("main".to_string());
    c.add_branch("p", "q", "h");
    c.add_branch("q", "p", "h");
    assert_eq!(c.stack_top("p"), "q");
}
