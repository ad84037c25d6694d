use ez_stack::github::{ci_mark_from_value, pr_info_from_view_value};
use ez_stack::error::EzError;
use ez_stack::github::{
    absorb_pr_status_page, create_pr, create_pr_args, edit_pr, get_all_ci_statuses, get_ci_status,
    get_pr_status, gh_result, merge_pr_args, merge_pr_status_page, pr_info_from_rest_value,
    pr_page_args, repo_name, set_pr_ready_args, update_pr_base_args, PrInfo,
};
use ez_stack::json::JsonValue;
use ez_stack::names::NameMap;

fn s(t: &str) -> JsonValue {
    JsonValue::String(t.to_string())
}

fn obj(members: Vec<(&str, JsonValue)>) -> JsonValue {
    JsonValue::Object(members.into_iter().map(|(k, v)| (k.to_string(), v)).collect())
}

fn rest_pr(number: u64, url: &str, state: &str, title: &str, draft: bool, merged_at: JsonValue, base: &str, head: &str) -> JsonValue {
    obj(vec![
        ("number", JsonValue::Number(Some(number))),
        ("html_url", s(url)),
        ("state", s(state)),
        ("title", s(title)),
        ("draft", JsonValue::Bool(draft)),
        ("merged_at", merged_at),
        ("base", obj(vec![("ref", s(base))])),
        ("head", obj(vec![("ref", s(head))])),
    ])
}

#[test]
fn merge_pr_status_page_keeps_first_pr_for_reused_branch_names() {
    let mut map: NameMap<PrInfo> = NameMap::new();
    let values = vec![
        rest_pr(12, "https://example.com/pr/12", "closed", "Newest PR", false, s("2026-03-31T10:00:00Z"), "main", "feat/reused"),
        rest_pr(4, "https://example.com/pr/4", "closed", "Old PR", false, JsonValue::Null, "main", "feat/reused"),
    ];

    merge_pr_status_page(&mut map, &values);

    let pr = map.get("feat/reused").expect("branch should be present");
    assert_eq!(pr.number, 12);
    assert_eq!(pr.title, "Newest PR");
    assert!(pr.merged);
}

#[test]
fn pr_info_from_rest_value_extracts_expected_fields() {
    let value = rest_pr(97, "https://example.com/pr/97", "open", "Test PR", true, JsonValue::Null, "develop", "feat/test");

    let (head, pr) = pr_info_from_rest_value(&value).expect("valid PR payload");

    assert_eq!(head, "feat/test");
    assert_eq!(pr.number, 97);
    assert_eq!(pr.url, "https://example.com/pr/97");
    assert_eq!(pr.state, "OPEN");
    assert_eq!(pr.title, "Test PR");
    assert_eq!(pr.base, "develop");
    assert!(pr.is_draft);
    assert!(!pr.merged);
}

#[test]
fn pr_info_defaults_and_missing_head() {
    let value = obj(vec![("head", obj(vec![("ref", s("feat/a"))])), ("merged_at", s(""))]);
    let (head, pr) = pr_info_from_rest_value(&value).expect("head present");
    assert_eq!(head, "feat/a");
    assert_eq!(pr.number, 0);
    assert_eq!(pr.url, "");
    assert_eq!(pr.state, "UNKNOWN");
    assert_eq!(pr.base, "");
    assert!(!pr.is_draft);
    assert!(pr.merged);
    assert!(pr_info_from_rest_value(&obj(vec![("number", JsonValue::Number(Some(1)))])).is_none());
    assert!(pr_info_from_rest_value(&obj(vec![("head", obj(vec![("ref", JsonValue::Null)]))])).is_none());
}

#[test]
fn merge_keeps_entries_already_recorded() {
    let mut map: NameMap<PrInfo> = NameMap::new();
    merge_pr_status_page(&mut map, &[rest_pr(1, "u1", "open", "first", false, JsonValue::Null, "main", "a")]);
    merge_pr_status_page(&mut map, &[
        rest_pr(2, "u2", "open", "second", false, JsonValue::Null, "main", "a"),
        rest_pr(3, "u3", "open", "third", false, JsonValue::Null, "main", "b"),
        obj(vec![("number", JsonValue::Number(Some(9)))]),
    ]);
    assert_eq!(map.len(), 2);
    assert_eq!(map.get("a").unwrap().number, 1);
    assert_eq!(map.get("b").unwrap().number, 3);
}

#[test]
fn pr_listing_page_reads_json_values() {
    let page = r#"[
        {"number": 18446744073709551615, "head": {"ref": "a"}, "merged_at": "2026-01-01T00:00:00Z"},
        {"number": -2, "head": {"ref": "b"}, "draft": true, "merged_at": null},
        {"number": 3.5, "head": {"ref": "c"}, "state": "open", "title": "T", "base": {"ref": "main"}},
        "x",
        [1, 2]
    ]"#;
    let mut map = NameMap::new();
    let more = absorb_pr_status_page(&mut map, Ok(page.to_string()));
    assert!(!more);
    assert_eq!(map.len(), 3);
    let a = map.get("a").unwrap();
    assert_eq!(a.number, u64::MAX);
    assert!(a.merged);
    assert_eq!(a.state, "UNKNOWN");
    let b = map.get("b").unwrap();
    assert_eq!(b.number, 0);
    assert!(b.is_draft);
    assert!(!b.merged);
    let c = map.get("c").unwrap();
    assert_eq!(c.number, 0);
    assert_eq!(c.state, "OPEN");
    assert_eq!(c.title, "T");
    assert_eq!(c.base, "main");
    assert!(!c.merged);
    let mut untouched = NameMap::new();
    assert!(!absorb_pr_status_page(&mut untouched, Ok("{not json".to_string())));
    assert_eq!(untouched.len(), 0);
}

#[test]
fn get_pr_status_reads_gh_view() {
    let out = Ok(r#"{"number":5,"url":"https://x/pull/5","state":"OPEN","title":"T","isDraft":true,"mergedAt":"","baseRefName":"main"}"#.to_string());
    let pr = get_pr_status(out).expect("ok").expect("some");
    assert_eq!(pr.number, 5);
    assert_eq!(pr.url, "https://x/pull/5");
    assert_eq!(pr.state, "OPEN");
    assert_eq!(pr.title, "T");
    assert_eq!(pr.base, "main");
    assert!(pr.is_draft);
    assert!(!pr.merged);
    let merged = get_pr_status(Ok(r#"{"mergedAt":"2024-01-01"}"#.to_string())).unwrap().unwrap();
    assert!(merged.merged);
    assert_eq!(merged.state, "UNKNOWN");
    assert!(matches!(get_pr_status(Err(EzError::GhError("no pr".to_string()))), Ok(None)));
    assert!(matches!(get_pr_status(Ok("oops".to_string())), Err(EzError::InvalidJson(_))));
}

#[test]
fn ci_marks() {
    assert_eq!(get_ci_status(Ok(r#"{"status":"completed","conclusion":"success"}"#.to_string())), "✓");
    assert_eq!(get_ci_status(Ok(r#"{"status":"completed","conclusion":"failure"}"#.to_string())), "✗");
    assert_eq!(get_ci_status(Ok(r#"{"status":"queued","conclusion":""}"#.to_string())), "⏳");
    assert_eq!(get_ci_status(Ok(r#"{"status":"in_progress"}"#.to_string())), "⏳");
    assert_eq!(get_ci_status(Ok(r#"{"status":"weird"}"#.to_string())), "");
    assert_eq!(get_ci_status(Ok("null".to_string())), "");
    assert_eq!(get_ci_status(Ok("".to_string())), "");
    assert_eq!(get_ci_status(Ok("garbage".to_string())), "");
    assert_eq!(get_ci_status(Err(EzError::GhError("x".to_string()))), "");
}

#[test]
fn all_ci_statuses_keep_latest_run_per_branch() {
    let text = "a\tcompleted\tsuccess\na\tcompleted\tfailure\nb\tweird\tx\nb\twaiting\t\nc\tcompleted\nd\tcompleted\tcancelled\textra\n";
    let marks = get_all_ci_statuses(Ok(text.to_string()));
    assert_eq!(marks.get("a").map(|s| s.as_str()), Some("✓"));
    assert_eq!(marks.get("b"), None);
    assert_eq!(marks.get("c"), None);
    assert_eq!(marks.get("d").map(|s| s.as_str()), Some("✗"));
    assert_eq!(marks.len(), 2);
    assert_eq!(get_all_ci_statuses(Err(EzError::GhError("x".to_string()))).len(), 0);
}

#[test]
fn newest_run_without_mark_leaves_branch_unmarked() {
    let marks = get_all_ci_statuses(Ok("feat/a\trequested\tnull\nfeat/a\tcompleted\tsuccess".to_string()));
    assert!(marks.get("feat/a").is_none());
    assert_eq!(marks.len(), 0);
}

#[test]
fn pages_of_pull_requests() {
    let mut map: NameMap<PrInfo> = NameMap::new();
    let page = r#"[{"number":3,"html_url":"u","state":"open","title":"t","draft":false,"merged_at":null,"base":{"ref":"main"},"head":{"ref":"x"}}]"#;
    assert!(!absorb_pr_status_page(&mut map, Ok(page.to_string())));
    assert_eq!(map.get("x").unwrap().number, 3);
    assert!(!absorb_pr_status_page(&mut map, Ok("[]".to_string())));
    assert!(!absorb_pr_status_page(&mut map, Ok("{}".to_string())));
    assert!(!absorb_pr_status_page(&mut map, Err(EzError::GhError("x".to_string()))));
    let full: Vec<String> = (0..100)
        .map(|i| format!(r#"{{"number":{i},"head":{{"ref":"b{i}"}}}}"#))
        .collect();
    assert!(absorb_pr_status_page(&mut map, Ok(format!("[{}]", full.join(",")))));
    assert_eq!(map.len(), 101);
}

#[test]
fn create_pr_reads_number_from_url() {
    let pr = create_pr("Title", "main", true, "https://github.com/o/r/pull/42".to_string()).expect("pr");
    assert_eq!(pr.number, 42);
    assert_eq!(pr.url, "https://github.com/o/r/pull/42");
    assert_eq!(pr.state, "OPEN");
    assert_eq!(pr.title, "Title");
    assert_eq!(pr.base, "main");
    assert!(pr.is_draft);
    assert!(!pr.merged);
    assert_eq!(create_pr("T", "main", false, "17".to_string()).unwrap().number, 17);
    match create_pr("T", "main", false, "https://github.com/o/r/pull/".to_string()) {
        Err(EzError::UserMessage(m)) => {
            assert_eq!(m, "could not parse PR number from URL: https://github.com/o/r/pull/")
        }
        _ => panic!("refusal expected"),
    }
}

#[test]
fn gh_arguments() {
    assert_eq!(
        create_pr_args("t", "b", "main", "feat", true),
        vec!["pr", "create", "--title", "t", "--body", "b", "--base", "main", "--head", "feat", "--draft"]
    );
    assert_eq!(
        create_pr_args("t", "b", "main", "feat", false),
        vec!["pr", "create", "--title", "t", "--body", "b", "--base", "main", "--head", "feat"]
    );
    assert_eq!(update_pr_base_args(12, "main"), vec!["pr", "edit", "12", "--base", "main"]);
    assert_eq!(merge_pr_args(3, "squash"), vec!["pr", "merge", "3", "--squash", "--delete-branch"]);
    assert_eq!(merge_pr_args(3, "rebase"), vec!["pr", "merge", "3", "--rebase", "--delete-branch"]);
    assert_eq!(merge_pr_args(3, "other"), vec!["pr", "merge", "3", "--merge", "--delete-branch"]);
    assert_eq!(set_pr_ready_args(9, true), vec!["pr", "ready", "9"]);
    assert_eq!(set_pr_ready_args(9, false), vec!["pr", "ready", "--undo", "9"]);
    assert_eq!(
        pr_page_args(2),
        vec!["api", "repos/{owner}/{repo}/pulls?state=all&per_page=100&page=2"]
    );
}

#[test]
fn edit_pr_needs_an_edit() {
    assert_eq!(edit_pr(5, Some("t"), None).unwrap(), vec!["pr", "edit", "5", "--title", "t"]);
    assert_eq!(
        edit_pr(5, Some("t"), Some("b")).unwrap(),
        vec!["pr", "edit", "5", "--title", "t", "--body", "b"]
    );
    assert_eq!(edit_pr(5, None, Some("b")).unwrap(), vec!["pr", "edit", "5", "--body", "b"]);
    match edit_pr(5, None, None) {
        Err(EzError::UserMessage(m)) => {
            assert_eq!(m, "No edits specified — provide --title, --body, or --body-file")
        }
        _ => panic!("refusal expected"),
    }
}

#[test]
fn repo_name_and_gh_outcomes() {
    assert_eq!(repo_name(Ok("o/r".to_string())).unwrap(), "o/r");
    assert!(matches!(repo_name(Ok(String::new())), Err(EzError::UserMessage(_))));
    assert!(matches!(repo_name(Err(EzError::GhError("x".to_string()))), Err(EzError::GhError(_))));
    assert_eq!(gh_result(true, "  out \n", "").unwrap(), "out");
    assert!(matches!(gh_result(false, "", " bad\n"), Err(EzError::GhError(e)) if e == "bad"));
}

#[test]
fn view_value_and_ci_value_readers() {
    let v = obj(vec![
        ("number", JsonValue::Number(Some(8))),
        ("state", s("MERGED")),
        ("isDraft", JsonValue::Bool(false)),
        ("mergedAt", s("2026-01-01")),
        ("baseRefName", s("main")),
    ]);
    let pr = pr_info_from_view_value(&v);
    assert_eq!(pr.number, 8);
    assert_eq!(pr.state, "MERGED");
    assert!(pr.merged);
    assert!(!pr.is_draft);
    assert_eq!(pr.base, "main");
    assert_eq!(pr.url, "");
    let empty = pr_info_from_view_value(&obj(vec![]));
    assert_eq!((empty.number, empty.state.as_str(), empty.merged), (0, "UNKNOWN", false));

    let run = |st: &str, c: JsonValue| ci_mark_from_value(&obj(vec![("status", s(st)), ("conclusion", c)]));
    assert_eq!(run("completed", s("success")), "✓");
    assert_eq!(run("completed", JsonValue::Null), "✗");
    assert_eq!(run("queued", JsonValue::Null), "⏳");
    assert_eq!(run("requested", JsonValue::Null), "");
    assert_eq!(ci_mark_from_value(&JsonValue::Null), "");
}

#[test]
fn invalid_json_carries_parser_message() {
    match get_pr_status(Ok("oops".to_string())) {
        Err(EzError::InvalidJson(message)) => assert!(!message.is_empty()),
        _ => panic!("parse error expected"),
    }
}
