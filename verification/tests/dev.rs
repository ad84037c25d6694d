use ez_stack::dev::{dev_port, listener_pids_from, parse_pid_lines, terminate_outcome};

#[test]
fn dev_port_is_stable() {
    assert_eq!(dev_port("feat/auth"), dev_port("feat/auth"));
    assert_ne!(dev_port("feat/auth"), dev_port("feat/api"));
}

#[test]
fn parse_pid_lines_ignores_invalid_rows() {
    let parsed = parse_pid_lines("1234\nnoise\n5678\n");
    assert_eq!(parsed, vec![1234, 5678]);
}

fn djb2_port(branch: &str) -> u16 {
    let mut hash: u32 = 5381;
    for byte in branch.bytes() {
        hash = hash.wrapping_mul(33).wrapping_add(byte as u32);
    }
    10000 + (hash % 10000) as u16
}

#[test]
fn dev_port_matches_djb2_and_stays_in_range() {
    for b in ["", "a", "feat/auth", "main", "ünïcödé-branch", "a-very-long-branch-name-that-wraps-the-hash-many-times"] {
        let p = dev_port(b);
        assert_eq!(p, djb2_port(b));
        assert!((10000..=19999).contains(&p));
    }
    // djb2 of the empty string is 5381.
    assert_eq!(dev_port(""), 15381);
}

#[test]
fn parse_pid_lines_trims_and_handles_line_endings() {
    assert_eq!(parse_pid_lines(" 42 \r\n\t7\n+9\n4294967296\n-1\n"), vec![42, 7, 9]);
    assert_eq!(parse_pid_lines(""), Vec::<u32>::new());
    assert_eq!(parse_pid_lines("4294967295"), vec![4294967295]);
}

#[test]
fn lsof_outcomes() {
    assert_eq!(listener_pids_from(3000, true, Some(0), "12\n13\n", ""), Ok(vec![12, 13]));
    assert_eq!(listener_pids_from(3000, false, Some(1), "", ""), Ok(vec![]));
    assert_eq!(
        listener_pids_from(3000, false, Some(2), "", "  boom \n"),
        Err("failed to query TCP port 3000: boom".to_string())
    );
    assert_eq!(
        listener_pids_from(8, false, None, "", ""),
        Err("failed to query TCP port 8: ".to_string())
    );
}

#[test]
fn kill_outcomes() {
    assert_eq!(terminate_outcome(77, true, ""), Ok(()));
    assert_eq!(
        terminate_outcome(77, false, "no such process\n"),
        Err("failed to terminate pid 77: no such process".to_string())
    );
}
