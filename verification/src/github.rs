use vstd::prelude::*;

use crate::error::EzError;
use crate::json::{
    as_bool, as_str, as_u64, is_null, json_bool, json_get, json_is_null, json_parse, json_str,
    json_u64, parse_json, JsonValue,
};
use crate::names::NameMap;
use crate::text::{
    ascii_upper, concat, decimal, parse_unsigned, parse_unsigned_exec, split_char, split_on,
    str_eq, to_ascii_uppercase, to_strings, trim, trimmed, u64_to_decimal, views, contains_str,
};

verus! {

broadcast use crate::names::NameMap::lemma_dom;

/// A pull request as `gh` reports it.
#[derive(Debug, Clone)]
pub struct PrInfo {
    pub number: u64,
    pub url: String,
    pub state: String,
    pub title: String,
    pub base: String,
    pub is_draft: bool,
    pub merged: bool,
}

/// What a `PrInfo` holds, with its texts as character sequences.
pub struct PrInfoView {
    pub number: u64,
    pub url: Seq<char>,
    pub state: Seq<char>,
    pub title: Seq<char>,
    pub base: Seq<char>,
    pub is_draft: bool,
    pub merged: bool,
}

impl View for PrInfo {
    type V = PrInfoView;

    open spec fn view(&self) -> PrInfoView {
        PrInfoView {
            number: self.number,
            url: self.url@,
            state: self.state@,
            title: self.title@,
            base: self.base@,
            is_draft: self.is_draft,
            merged: self.merged,
        }
    }
}

/// The outcome of one `gh` run: its output without surrounding white space
/// when it succeeded, otherwise its error output, likewise trimmed.
pub fn gh_result(success: bool, stdout: &str, stderr: &str) -> (r: Result<String, EzError>)
    ensures
        success ==> (r matches Ok(s) && s@ == trim(stdout@)),
        !success ==> (r matches Err(EzError::GhError(e)) && e@ == trim(stderr@)),
{
    if success {
        Ok(trimmed(stdout))
    } else {
        Err(EzError::GhError(trimmed(stderr)))
    }
}

pub open spec fn opt_text(v: Option<Seq<char>>, default: Seq<char>) -> Seq<char> {
    match v {
        Some(s) => s,
        None => default,
    }
}

/// `v[a][b]`, absent when either step is.
pub open spec fn json_get2(v: JsonValue, a: Seq<char>, b: Seq<char>) -> Option<JsonValue> {
    match json_get(v, a) {
        Some(x) => json_get(x, b),
        None => None,
    }
}

/// The head branch and the pull request that one entry of the REST pulls
/// listing describes; nothing when the entry names no head branch.
pub open spec fn pr_from_rest(v: JsonValue) -> Option<(Seq<char>, PrInfoView)> {
    match json_str(json_get2(v, "head"@, "ref"@)) {
        Some(head) => Some(
            (
                head,
                PrInfoView {
                    number: match json_u64(json_get(v, "number"@)) {
                        Some(n) => n,
                        None => 0,
                    },
                    url: opt_text(json_str(json_get(v, "html_url"@)), Seq::empty()),
                    state: ascii_upper(opt_text(json_str(json_get(v, "state"@)), "UNKNOWN"@)),
                    title: opt_text(json_str(json_get(v, "title"@)), Seq::empty()),
                    base: opt_text(json_str(json_get2(v, "base"@, "ref"@)), Seq::empty()),
                    is_draft: json_bool(json_get(v, "draft"@)) == Some(true),
                    merged: !json_is_null(json_get(v, "merged_at"@)),
                },
            ),
        ),
        None => None,
    }
}

fn text_or(v: Option<&String>, default: &str) -> (s: String)
    ensures
        s@ == opt_text(
            match v {
                Some(t) => Some(t@),
                None => None,
            },
            default@,
        ),
{
    match v {
        Some(t) => t.clone(),
        None => default.to_string(),
    }
}

fn get2<'a>(v: &'a JsonValue, a: &str, b: &str) -> (r: Option<&'a JsonValue>)
    ensures
        crate::json::option_deref(r) == json_get2(*v, a@, b@),
{
    match v.get(a) {
        Some(x) => x.get(b),
        None => None,
    }
}

/// Reads one entry of the REST pulls listing.
pub fn pr_info_from_rest_value(value: &JsonValue) -> (r: Option<(String, PrInfo)>)
    ensures
        match r {
            Some((head, pr)) => pr_from_rest(*value) == Some((head@, pr@)),
            None => pr_from_rest(*value) is None,
        },
{
    let head = match as_str(get2(value, "head", "ref")) {
        Some(h) => h.clone(),
        None => {
            return None;
        },
    };
    let number = match as_u64(value.get("number")) {
        Some(n) => n,
        None => 0,
    };
    let url = text_or(as_str(value.get("html_url")), "");
    let state_text = text_or(as_str(value.get("state")), "UNKNOWN");
    let state = to_ascii_uppercase(state_text.as_str());
    let title = text_or(as_str(value.get("title")), "");
    let base = text_or(as_str(get2(value, "base", "ref")), "");
    let is_draft = match as_bool(value.get("draft")) {
        Some(b) => b,
        None => false,
    };
    let merged = !is_null(value.get("merged_at"));
    let pr = PrInfo { number, url, state, title, base, is_draft, merged };
    proof {
        assert(""@ == Seq::<char>::empty()) by {
            reveal_strlit("");
        }
    }
    Some((head, pr))
}

/// The pull requests in `m`, by head branch.
pub open spec fn pr_map(m: NameMap<PrInfo>) -> Map<Seq<char>, PrInfoView> {
    m.as_map().map_values(|p: PrInfo| p@)
}

/// `m` after taking in the entries of one listing page in order: a head
/// branch keeps the first pull request seen for it.
pub open spec fn merged_page(m: Map<Seq<char>, PrInfoView>, vals: Seq<JsonValue>) -> Map<Seq<char>, PrInfoView>
    decreases vals.len(),
{
    if vals.len() == 0 {
        m
    } else {
        let m1 = merged_page(m, vals.drop_last());
        match pr_from_rest(vals.last()) {
            Some((h, pr)) => if m1.contains_key(h) {
                m1
            } else {
                m1.insert(h, pr)
            },
            None => m1,
        }
    }
}

/// Taking in a page never replaces a pull request already recorded for a branch.
pub proof fn lemma_merged_page_keeps(m: Map<Seq<char>, PrInfoView>, vals: Seq<JsonValue>, h: Seq<char>)
    requires
        m.contains_key(h),
    ensures
        merged_page(m, vals).contains_key(h),
        merged_page(m, vals)[h] == m[h],
    decreases vals.len(),
{
    if vals.len() > 0 {
        lemma_merged_page_keeps(m, vals.drop_last(), h);
    }
}

/// Whether the listing entry `v` reads as a pull request of head branch `h`.
pub open spec fn names_head(v: JsonValue, h: Seq<char>) -> bool {
    match pr_from_rest(v) {
        Some((head, _)) => head == h,
        None => false,
    }
}

proof fn lemma_merged_page_covers(m: Map<Seq<char>, PrInfoView>, vals: Seq<JsonValue>, j: int, h: Seq<char>)
    requires
        0 <= j < vals.len(),
        names_head(vals[j], h),
    ensures
        merged_page(m, vals).contains_key(h),
    decreases vals.len(),
{
    if j < vals.len() - 1 {
        assert(vals.drop_last()[j] == vals[j]);
        lemma_merged_page_covers(m, vals.drop_last(), j, h);
    }
}

/// A head branch that a page adds comes from the first entry of the page
/// that names it, and holds the pull request that entry reads as.
pub proof fn law_merged_page_first_entry(m: Map<Seq<char>, PrInfoView>, vals: Seq<JsonValue>, h: Seq<char>)
    requires
        !m.contains_key(h),
        merged_page(m, vals).contains_key(h),
    ensures
        exists|i: int|
            0 <= i < vals.len() && pr_from_rest(#[trigger] vals[i]) == Some((h, merged_page(m, vals)[h])) && forall|
                j: int,
            | 0 <= j < i ==> !names_head(#[trigger] vals[j], h),
    decreases vals.len(),
{
    let m1 = merged_page(m, vals.drop_last());
    let n = vals.len() - 1;
    if m1.contains_key(h) {
        law_merged_page_first_entry(m, vals.drop_last(), h);
        let i = choose|i: int|
            0 <= i < vals.drop_last().len() && pr_from_rest(#[trigger] vals.drop_last()[i]) == Some((h, m1[h]))
                && forall|j: int| 0 <= j < i ==> !names_head(#[trigger] vals.drop_last()[j], h);
        assert(vals[i] == vals.drop_last()[i]);
        assert forall|j: int| 0 <= j < i implies !names_head(#[trigger] vals[j], h) by {
            assert(vals[j] == vals.drop_last()[j]);
        }
        assert(merged_page(m, vals)[h] == m1[h]);
    } else {
        assert forall|j: int| 0 <= j < n implies !names_head(#[trigger] vals[j], h) by {
            if names_head(vals[j], h) {
                assert(vals.drop_last()[j] == vals[j]);
                lemma_merged_page_covers(m, vals.drop_last(), j, h);
            }
        }
        assert(pr_from_rest(vals[n]) == Some((h, merged_page(m, vals)[h])));
    }
}

/// Adds the pull requests of one listing page, keeping the first one seen
/// for each head branch (newest first, so older pull requests of a reused
/// branch name never replace it).
pub fn merge_pr_status_page(map: &mut NameMap<PrInfo>, values: &[JsonValue])
    ensures
        pr_map(*final(map)) == merged_page(pr_map(*old(map)), values@),
        forall|h: Seq<char>| #[trigger] pr_map(*old(map)).contains_key(h) ==> pr_map(*final(map)).contains_key(h)
            && pr_map(*final(map))[h] == pr_map(*old(map))[h],
{
    let ghost m0 = pr_map(*map);
    let n = values.len();
    proof {
        assert(values@.take(0) =~= Seq::<JsonValue>::empty());
    }
    for i in 0..n
        invariant
            n == values@.len(),
            pr_map(*map) == merged_page(m0, values@.take(i as int)),
    {
        proof {
            assert(values@.take(i + 1).drop_last() =~= values@.take(i as int));
            assert(values@.take(i + 1).last() == values@[i as int]);
        }
        match pr_info_from_rest_value(&values[i]) {
            Some((head, pr)) => {
                if !map.contains_key(head.as_str()) {
                    let ghost before = *map;
                    let ghost pv = pr@;
                    map.insert(head, pr);
                    proof {
                        assert(pr_map(*map) =~= pr_map(before).insert(head@, pv));
                    }
                }
            },
            None => {},
        }
    }
    proof {
        assert(values@.take(n as int) =~= values@);
        assert forall|h: Seq<char>| #[trigger] m0.contains_key(h) implies pr_map(*map).contains_key(h)
            && pr_map(*map)[h] == m0[h] by {
            lemma_merged_page_keeps(m0, values@, h);
        }
    }
}

/// The `gh` arguments that open a pull request from `head` into `base`.
pub fn create_pr_args(title: &str, body: &str, base: &str, head: &str, draft: bool) -> (args: Vec<String>)
    ensures
        views(args@) == seq!["pr"@, "create"@, "--title"@, title@, "--body"@, body@, "--base"@, base@, "--head"@, head@]
            + (if draft { seq!["--draft"@] } else { Seq::empty() }),
{
    let mut parts: Vec<&str> = vec!["pr", "create", "--title", title, "--body", body, "--base", base, "--head", head];
    if draft {
        parts.push("--draft");
    }
    let args = to_strings(&parts);
    proof {
        assert(views(args@) =~= seq!["pr"@, "create"@, "--title"@, title@, "--body"@, body@, "--base"@, base@, "--head"@, head@]
            + (if draft { seq!["--draft"@] } else { Seq::empty() }));
    }
    args
}

/// The pull request that `gh pr create` reported at `url`: its number is
/// the part of the address after the last `/`.
pub fn create_pr(title: &str, base: &str, draft: bool, url: String) -> (r: Result<PrInfo, EzError>)
    ensures
        match parse_unsigned(split_on(url@, '/').last(), u64::MAX as nat) {
            Some(n) => r matches Ok(pr) && pr@ == (PrInfoView {
                number: n as u64,
                url: url@,
                state: "OPEN"@,
                title: title@,
                base: base@,
                is_draft: draft,
                merged: false,
            }),
            None => r matches Err(EzError::UserMessage(m)) && m@ == "could not parse PR number from URL: "@ + url@,
        },
{
    let pieces = split_char(url.as_str(), '/');
    proof {
        crate::text::lemma_split_on_len(url@, '/');
    }
    let last = &pieces[pieces.len() - 1];
    match parse_unsigned_exec(last.as_str(), u64::MAX) {
        Some(number) => Ok(PrInfo {
            number,
            url,
            state: "OPEN".to_string(),
            title: title.to_string(),
            base: base.to_string(),
            is_draft: draft,
            merged: false,
        }),
        None => Err(EzError::UserMessage(concat("could not parse PR number from URL: ", url.as_str()))),
    }
}

/// The `gh` arguments that retarget pull request `pr_number` onto `new_base`.
pub fn update_pr_base_args(pr_number: u64, new_base: &str) -> (args: Vec<String>)
    ensures
        views(args@) == seq!["pr"@, "edit"@, decimal(pr_number as nat), "--base"@, new_base@],
{
    let number = u64_to_decimal(pr_number);
    let args = to_strings(&vec!["pr", "edit", number.as_str(), "--base", new_base]);
    proof {
        assert(views(args@) =~= seq!["pr"@, "edit"@, decimal(pr_number as nat), "--base"@, new_base@]);
    }
    args
}

/// The `gh` merge flag for a merge method: squash, rebase, or else a merge commit.
pub open spec fn merge_flag(method: Seq<char>) -> Seq<char> {
    if method == "squash"@ {
        "--squash"@
    } else if method == "rebase"@ {
        "--rebase"@
    } else {
        "--merge"@
    }
}

/// The `gh` arguments that merge pull request `pr_number` and delete its branch.
pub fn merge_pr_args(pr_number: u64, method: &str) -> (args: Vec<String>)
    ensures
        views(args@) == seq!["pr"@, "merge"@, decimal(pr_number as nat), merge_flag(method@), "--delete-branch"@],
{
    let flag = if str_eq(method, "squash") {
        "--squash"
    } else if str_eq(method, "rebase") {
        "--rebase"
    } else {
        "--merge"
    };
    let number = u64_to_decimal(pr_number);
    let args = to_strings(&vec!["pr", "merge", number.as_str(), flag, "--delete-branch"]);
    proof {
        assert(views(args@) =~= seq!["pr"@, "merge"@, decimal(pr_number as nat), merge_flag(method@), "--delete-branch"@]);
    }
    args
}

/// The `gh` arguments that edit the title and body of pull request
/// `pr_number`, or the refusal when neither is given.
pub fn edit_pr(pr_number: u64, title: Option<&str>, body: Option<&str>) -> (r: Result<Vec<String>, EzError>)
    ensures
        title is None && body is None ==> (r matches Err(EzError::UserMessage(m))
            && m@ == "No edits specified — provide --title, --body, or --body-file"@),
        !(title is None && body is None) ==> (r matches Ok(args) && views(args@) == seq!["pr"@, "edit"@, decimal(pr_number as nat)]
            + (match title { Some(t) => seq!["--title"@, t@], None => Seq::empty() })
            + (match body { Some(b) => seq!["--body"@, b@], None => Seq::empty() })),
{
    let number = u64_to_decimal(pr_number);
    let mut parts: Vec<&str> = vec!["pr", "edit", number.as_str()];
    if let Some(t) = title {
        parts.push("--title");
        parts.push(t);
    }
    if let Some(b) = body {
        parts.push("--body");
        parts.push(b);
    }
    if parts.len() == 3 {
        return Err(EzError::UserMessage("No edits specified — provide --title, --body, or --body-file".to_string()));
    }
    let args = to_strings(&parts);
    proof {
        assert(views(args@) =~= seq!["pr"@, "edit"@, decimal(pr_number as nat)]
            + (match title { Some(t) => seq!["--title"@, t@], None => Seq::empty() })
            + (match body { Some(b) => seq!["--body"@, b@], None => Seq::empty() }));
    }
    Ok(args)
}

/// The `gh` arguments that mark pull request `pr_number` ready for review,
/// or back to draft.
pub fn set_pr_ready_args(pr_number: u64, ready: bool) -> (args: Vec<String>)
    ensures
        ready ==> views(args@) == seq!["pr"@, "ready"@, decimal(pr_number as nat)],
        !ready ==> views(args@) == seq!["pr"@, "ready"@, "--undo"@, decimal(pr_number as nat)],
{
    let number = u64_to_decimal(pr_number);
    let args = if ready {
        to_strings(&vec!["pr", "ready", number.as_str()])
    } else {
        to_strings(&vec!["pr", "ready", "--undo", number.as_str()])
    };
    proof {
        if ready {
            assert(views(args@) =~= seq!["pr"@, "ready"@, decimal(pr_number as nat)]);
        } else {
            assert(views(args@) =~= seq!["pr"@, "ready"@, "--undo"@, decimal(pr_number as nat)]);
        }
    }
    args
}

/// The repository name that `gh repo view` printed, refused when empty.
pub fn repo_name(output: Result<String, EzError>) -> (r: Result<String, EzError>)
    ensures
        output is Err ==> r == output,
        output matches Ok(s) && s@.len() == 0 ==> (r matches Err(EzError::UserMessage(m))
            && m@ == "could not determine repository name — make sure you're in a GitHub repo"@),
        output matches Ok(s) && s@.len() > 0 ==> r == output,
{
    match output {
        Ok(s) => {
            if s.as_str().is_empty() {
                Err(EzError::UserMessage(
                    "could not determine repository name — make sure you're in a GitHub repo".to_string(),
                ))
            } else {
                Ok(s)
            }
        },
        Err(e) => Err(e),
    }
}

/// The pull request that `gh pr view --json ...` describes.
pub open spec fn pr_from_view(v: JsonValue) -> PrInfoView {
    PrInfoView {
        number: match json_u64(json_get(v, "number"@)) {
            Some(n) => n,
            None => 0,
        },
        url: opt_text(json_str(json_get(v, "url"@)), Seq::empty()),
        state: opt_text(json_str(json_get(v, "state"@)), "UNKNOWN"@),
        title: opt_text(json_str(json_get(v, "title"@)), Seq::empty()),
        base: opt_text(json_str(json_get(v, "baseRefName"@)), Seq::empty()),
        is_draft: json_bool(json_get(v, "isDraft"@)) == Some(true),
        merged: match json_str(json_get(v, "mergedAt"@)) {
            Some(t) => t.len() > 0,
            None => false,
        },
    }
}

/// The `gh` arguments that describe the pull request of `branch` as JSON.
pub fn pr_view_args(branch: &str) -> (args: Vec<String>)
    ensures
        views(args@) == seq!["pr"@, "view"@, branch@, "--json"@, "number,url,state,title,isDraft,mergedAt,baseRefName"@],
{
    let args = to_strings(&vec!["pr", "view", branch, "--json", "number,url,state,title,isDraft,mergedAt,baseRefName"]);
    proof {
        assert(views(args@) =~= seq!["pr"@, "view"@, branch@, "--json"@, "number,url,state,title,isDraft,mergedAt,baseRefName"@]);
    }
    args
}

/// Reads the description `gh pr view --json` gives of a pull request.
pub fn pr_info_from_view_value(v: &JsonValue) -> (pr: PrInfo)
    ensures
        pr@ == pr_from_view(*v),
{
    let number = match as_u64(v.get("number")) {
        Some(n) => n,
        None => 0,
    };
    let merged = match as_str(v.get("mergedAt")) {
        Some(t) => !t.as_str().is_empty(),
        None => false,
    };
    let is_draft = match as_bool(v.get("isDraft")) {
        Some(b) => b,
        None => false,
    };
    let pr = PrInfo {
        number,
        url: text_or(as_str(v.get("url")), ""),
        state: text_or(as_str(v.get("state")), "UNKNOWN"),
        title: text_or(as_str(v.get("title")), ""),
        base: text_or(as_str(v.get("baseRefName")), ""),
        is_draft,
        merged,
    };
    proof {
        assert(""@ == Seq::<char>::empty()) by {
            reveal_strlit("");
        }
    }
    pr
}

/// The pull request of a branch, from what `gh pr view` answered: none when
/// `gh` failed (the branch has no pull request), an error carrying the
/// parser's message when it printed something other than JSON.
pub fn get_pr_status(output: Result<String, EzError>) -> (r: Result<Option<PrInfo>, EzError>)
    ensures
        output is Err ==> r matches Ok(None),
        output matches Ok(t) ==> match json_parse(t@) {
            Some(v) => r matches Ok(Some(pr)) && pr@ == pr_from_view(v),
            None => r matches Err(EzError::InvalidJson(_)),
        },
{
    let text = match output {
        Ok(t) => t,
        Err(_) => {
            return Ok(None);
        },
    };
    match parse_json(text.as_str()) {
        Ok(v) => Ok(Some(pr_info_from_view_value(&v))),
        Err(message) => Err(EzError::InvalidJson(message)),
    }
}

/// The mark for a CI run: a check for success, a cross for any other
/// finished run, an hourglass for one that is running, queued or waiting,
/// and nothing otherwise.
pub open spec fn ci_mark(status: Seq<char>, conclusion: Seq<char>) -> Seq<char> {
    if status == "completed"@ {
        if conclusion == "success"@ {
            "✓"@
        } else {
            "✗"@
        }
    } else if status == "in_progress"@ || status == "queued"@ || status == "waiting"@ {
        "⏳"@
    } else {
        ""@
    }
}

fn ci_mark_exec(status: &str, conclusion: &str) -> (m: &'static str)
    ensures
        m@ == ci_mark(status@, conclusion@),
{
    if str_eq(status, "completed") {
        if str_eq(conclusion, "success") {
            "✓"
        } else {
            "✗"
        }
    } else if str_eq(status, "in_progress") || str_eq(status, "queued") || str_eq(status, "waiting") {
        "⏳"
    } else {
        ""
    }
}

/// The `gh` arguments that report the latest CI run of `branch`.
pub fn ci_status_args(branch: &str) -> (args: Vec<String>)
    ensures
        views(args@) == seq!["run"@, "list"@, "--branch"@, branch@, "--limit"@, "1"@, "--json"@, "status,conclusion"@, "--jq"@, ".[0]"@],
{
    let args = to_strings(&vec!["run", "list", "--branch", branch, "--limit", "1", "--json", "status,conclusion", "--jq", ".[0]"]);
    proof {
        assert(views(args@) =~= seq!["run"@, "list"@, "--branch"@, branch@, "--limit"@, "1"@, "--json"@, "status,conclusion"@, "--jq"@, ".[0]"@]);
    }
    args
}

/// The mark for the CI run that `v` describes, by its `status` and
/// `conclusion` (each empty when missing or not a string).
pub fn ci_mark_from_value(v: &JsonValue) -> (mark: String)
    ensures
        mark@ == ci_mark(
            opt_text(json_str(json_get(*v, "status"@)), Seq::empty()),
            opt_text(json_str(json_get(*v, "conclusion"@)), Seq::empty()),
        ),
        ({
            let status = opt_text(json_str(json_get(*v, "status"@)), Seq::empty());
            let conclusion = opt_text(json_str(json_get(*v, "conclusion"@)), Seq::empty());
            &&& (status == "waiting"@ || status == "in_progress"@ || status == "queued"@) ==> mark@ == "⏳"@
            &&& status == "completed"@ && conclusion == "success"@ ==> mark@ == "✓"@
            &&& status == "completed"@ && conclusion != "success"@ ==> mark@ == "✗"@
            &&& mark@.len() == 0 <==> (status != "completed"@ && status != "in_progress"@ && status != "queued"@
                && status != "waiting"@)
        }),
{
    proof {
        law_ci_mark_table(
            opt_text(json_str(json_get(*v, "status"@)), Seq::empty()),
            opt_text(json_str(json_get(*v, "conclusion"@)), Seq::empty()),
        );
    }
    let status = text_or(as_str(v.get("status")), "");
    let conclusion = text_or(as_str(v.get("conclusion")), "");
    proof {
        assert(""@ == Seq::<char>::empty()) by {
            reveal_strlit("");
        }
    }
    ci_mark_exec(status.as_str(), conclusion.as_str()).to_string()
}

/// The mark for the latest CI run of a branch, from what `gh run list`
/// answered; empty when it failed, printed nothing or `null`, or printed
/// something other than JSON.
pub fn get_ci_status(output: Result<String, EzError>) -> (mark: String)
    ensures
        match output {
            Ok(t) => if t@.len() > 0 && t@ != "null"@ {
                match json_parse(t@) {
                    Some(v) => mark@ == ci_mark(
                        opt_text(json_str(json_get(v, "status"@)), Seq::empty()),
                        opt_text(json_str(json_get(v, "conclusion"@)), Seq::empty()),
                    ),
                    None => mark@ == Seq::<char>::empty(),
                }
            } else {
                mark@ == Seq::<char>::empty()
            },
            Err(_) => mark@ == Seq::<char>::empty(),
        },
{
    let text = match output {
        Ok(t) => t,
        Err(_) => {
            return String::new();
        },
    };
    if text.as_str().is_empty() || str_eq(text.as_str(), "null") {
        return String::new();
    }
    match parse_json(text.as_str()) {
        Ok(v) => ci_mark_from_value(&v),
        Err(_) => String::new(),
    }
}

/// The branches named by the lines of a run listing that have at least
/// three fields.
pub open spec fn ci_seen(ls: Seq<Seq<char>>) -> Set<Seq<char>>
    decreases ls.len(),
{
    if ls.len() == 0 {
        Set::empty()
    } else {
        let parts = split_on(ls.last(), '\t');
        if parts.len() < 3 {
            ci_seen(ls.drop_last())
        } else {
            ci_seen(ls.drop_last()).insert(parts[0])
        }
    }
}

/// The CI marks by branch after taking in the lines of a run listing
/// (`branch<TAB>status<TAB>conclusion`, newest first) in order. The first
/// run listed for a branch decides: it gives the branch its mark, or, when
/// its status gives no mark, leaves the branch without one. Lines with
/// fewer than three fields are passed over.
pub open spec fn ci_marks(ls: Seq<Seq<char>>) -> Map<Seq<char>, Seq<char>>
    decreases ls.len(),
{
    if ls.len() == 0 {
        Map::empty()
    } else {
        let m1 = ci_marks(ls.drop_last());
        let parts = split_on(ls.last(), '\t');
        if parts.len() < 3 || ci_seen(ls.drop_last()).contains(parts[0]) {
            m1
        } else {
            let mark = ci_mark(parts[1], parts[2]);
            if mark.len() == 0 {
                m1
            } else {
                m1.insert(parts[0], mark)
            }
        }
    }
}

/// Only the first run listed for a branch counts: once the first `k` lines
/// name `b`, the lines after them change nothing about `b`.
pub proof fn lemma_ci_first_run_decides(ls: Seq<Seq<char>>, k: int, b: Seq<char>)
    requires
        0 <= k <= ls.len(),
        ci_seen(ls.take(k)).contains(b),
    ensures
        ci_seen(ls).contains(b),
        ci_marks(ls).contains_key(b) == ci_marks(ls.take(k)).contains_key(b),
        ci_marks(ls).contains_key(b) ==> ci_marks(ls)[b] == ci_marks(ls.take(k))[b],
    decreases ls.len(),
{
    if k == ls.len() {
        assert(ls.take(k) =~= ls);
    } else {
        assert(ls.drop_last().take(k) =~= ls.take(k));
        lemma_ci_first_run_decides(ls.drop_last(), k, b);
    }
}

/// The CI mark of a run, by its status and conclusion: a run that is in
/// progress, queued or waiting gets the hourglass whatever its conclusion; a
/// completed run gets a check when it succeeded and a cross otherwise; any
/// other status gets no mark.
pub proof fn law_ci_mark_table(status: Seq<char>, conclusion: Seq<char>)
    ensures
        status == "waiting"@ ==> ci_mark(status, conclusion) == "⏳"@,
        status == "in_progress"@ ==> ci_mark(status, conclusion) == "⏳"@,
        status == "queued"@ ==> ci_mark(status, conclusion) == "⏳"@,
        status == "completed"@ && conclusion == "success"@ ==> ci_mark(status, conclusion) == "✓"@,
        status == "completed"@ && conclusion != "success"@ ==> ci_mark(status, conclusion) == "✗"@,
        status != "completed"@ && status != "in_progress"@ && status != "queued"@ && status != "waiting"@
            ==> ci_mark(status, conclusion).len() == 0,
        ci_mark(status, conclusion).len() == 0 <==> (status != "completed"@ && status != "in_progress"@
            && status != "queued"@ && status != "waiting"@),
{
    reveal_strlit("waiting");
    reveal_strlit("in_progress");
    reveal_strlit("queued");
    reveal_strlit("completed");
    reveal_strlit("success");
    reveal_strlit("⏳");
    reveal_strlit("✓");
    reveal_strlit("✗");
    reveal_strlit("");
    assert("waiting"@ != "completed"@) by {
        assert("waiting"@[0] != "completed"@[0]);
    }
    assert("in_progress"@ != "completed"@) by {
        assert("in_progress"@[0] != "completed"@[0]);
    }
    assert("queued"@ != "completed"@) by {
        assert("queued"@[0] != "completed"@[0]);
    }
}

proof fn lemma_ci_marks_seen(ls: Seq<Seq<char>>, b: Seq<char>)
    ensures
        ci_marks(ls).contains_key(b) ==> ci_seen(ls).contains(b),
    decreases ls.len(),
{
    if ls.len() > 0 {
        lemma_ci_marks_seen(ls.drop_last(), b);
    }
}

/// In a run listing, the first line that names a branch gives it its mark:
/// the branch has a mark exactly when that run's status gives one, and then
/// the mark is that run's.
pub proof fn law_ci_marks_first_run(ls: Seq<Seq<char>>, k: int)
    requires
        0 <= k < ls.len(),
        split_on(ls[k], '\t').len() >= 3,
        !ci_seen(ls.take(k)).contains(split_on(ls[k], '\t')[0]),
    ensures
        ({
            let parts = split_on(ls[k], '\t');
            &&& ci_marks(ls).contains_key(parts[0]) <==> ci_mark(parts[1], parts[2]).len() > 0
            &&& ci_marks(ls).contains_key(parts[0]) ==> ci_marks(ls)[parts[0]] == ci_mark(parts[1], parts[2])
        }),
{
    let parts = split_on(ls[k], '\t');
    let b = parts[0];
    let pre = ls.take(k + 1);
    assert(pre.drop_last() =~= ls.take(k));
    assert(pre.last() == ls[k]);
    lemma_ci_marks_seen(ls.take(k), b);
    assert(ci_seen(pre).contains(b));
    lemma_ci_first_run_decides(ls, k + 1, b);
}

/// The texts in `m`, by name.
pub open spec fn text_map(m: NameMap<String>) -> Map<Seq<char>, Seq<char>> {
    m.as_map().map_values(|s: String| s@)
}

/// The mark of the latest CI run of each branch, from what the listing of
/// the repository's workflow runs answered; none when it failed.
pub fn get_all_ci_statuses(output: Result<String, EzError>) -> (marks: NameMap<String>)
    ensures
        output is Err ==> text_map(marks) == Map::<Seq<char>, Seq<char>>::empty(),
        output matches Ok(t) ==> text_map(marks) == ci_marks(crate::text::lines(t@)),
{
    let mut map: NameMap<String> = NameMap::new();
    proof {
        assert(text_map(map) =~= Map::<Seq<char>, Seq<char>>::empty());
    }
    let text = match output {
        Ok(t) => t,
        Err(_) => {
            return map;
        },
    };
    let ls = crate::text::lines_of(text.as_str());
    let n = ls.len();
    let mut seen: Vec<String> = Vec::new();
    proof {
        assert(views(ls@).take(0) =~= Seq::<Seq<char>>::empty());
        assert(views(seen@).to_set() =~= ci_seen(views(ls@).take(0)));
    }
    for i in 0..n
        invariant
            n == ls@.len(),
            views(ls@) == crate::text::lines(text@),
            text_map(map) == ci_marks(views(ls@).take(i as int)),
            views(seen@).to_set() == ci_seen(views(ls@).take(i as int)),
    {
        proof {
            assert(views(ls@).take(i + 1).drop_last() =~= views(ls@).take(i as int));
            assert(views(ls@).take(i + 1).last() == ls@[i as int]@);
        }
        let parts = split_char(ls[i].as_str(), '\t');
        if parts.len() >= 3 {
            proof {
                assert(views(parts@)[0] == parts@[0]@);
                assert(views(parts@)[1] == parts@[1]@);
                assert(views(parts@)[2] == parts@[2]@);
            }
            if !contains_str(&seen, parts[0].as_str()) {
                let mark = ci_mark_exec(parts[1].as_str(), parts[2].as_str());
                if !mark.is_empty() {
                    let ghost before = map;
                    map.insert(parts[0].clone(), mark.to_string());
                    proof {
                        assert(text_map(map) =~= text_map(before).insert(parts@[0]@, mark@));
                    }
                }
                let ghost seen0 = views(seen@);
                seen.push(parts[0].clone());
                proof {
                    assert(views(seen@) =~= seen0.push(parts@[0]@));
                    assert forall|x: Seq<char>| views(seen@).contains(x) <==> (seen0.contains(x) || x == parts@[0]@) by {
                        if views(seen@).contains(x) && x != parts@[0]@ {
                            let j = views(seen@).index_of(x);
                            assert(seen0[j] == x);
                        }
                        if seen0.contains(x) {
                            let j = seen0.index_of(x);
                            assert(views(seen@)[j] == x);
                        }
                        if x == parts@[0]@ {
                            assert(views(seen@)[seen0.len() as int] == x);
                        }
                    }
                    assert(views(seen@).to_set() =~= seen0.to_set().insert(parts@[0]@));
                }
            } else {
                proof {
                    assert(views(seen@).to_set() =~= views(seen@).to_set().insert(parts@[0]@));
                }
            }
        }
    }
    proof {
        assert(views(ls@).take(n as int) =~= views(ls@));
    }
    map
}

/// The listing pages of pull requests hold at most this many entries.
pub const PR_PAGE_SIZE: usize = 100;

/// The `gh` arguments that fetch page `page` of the repository's pull requests.
pub fn pr_page_args(page: u64) -> (args: Vec<String>)
    ensures
        views(args@) == seq!["api"@, "repos/{owner}/{repo}/pulls?state=all&per_page=100&page="@ + decimal(page as nat)],
{
    let number = u64_to_decimal(page);
    let route = concat("repos/{owner}/{repo}/pulls?state=all&per_page=100&page=", number.as_str());
    let args = to_strings(&vec!["api", route.as_str()]);
    proof {
        assert(views(args@) =~= seq!["api"@, "repos/{owner}/{repo}/pulls?state=all&per_page=100&page="@ + decimal(page as nat)]);
    }
    args
}

/// The entries of a listing page: the array that `text` holds, if it holds one.
pub open spec fn page_entries(text: Seq<char>) -> Option<Seq<JsonValue>> {
    match json_parse(text) {
        Some(JsonValue::Array(vals)) => Some(vals@),
        _ => None,
    }
}

/// Takes in one page of the pull request listing, as `gh api` answered;
/// says whether the next page should be fetched. Listing stops at a failed
/// call, at text that is not a JSON array, at an empty page, and after a
/// page that is not full.
pub fn absorb_pr_status_page(map: &mut NameMap<PrInfo>, output: Result<String, EzError>) -> (more: bool)
    ensures
        match output {
            Ok(t) => match page_entries(t@) {
                Some(vals) => if vals.len() == 0 {
                    !more && pr_map(*final(map)) == pr_map(*old(map))
                } else {
                    pr_map(*final(map)) == merged_page(pr_map(*old(map)), vals) && more == (vals.len() >= 100)
                },
                None => !more && pr_map(*final(map)) == pr_map(*old(map)),
            },
            Err(_) => !more && pr_map(*final(map)) == pr_map(*old(map)),
        },
{
    let text = match output {
        Ok(t) => t,
        Err(_) => {
            return false;
        },
    };
    match parse_json(text.as_str()) {
        Ok(JsonValue::Array(vals)) => {
            if vals.len() == 0 {
                return false;
            }
            merge_pr_status_page(map, vals.as_slice());
            vals.len() >= PR_PAGE_SIZE
        },
        _ => false,
    }
}

/// The `gh` arguments that print the body of pull request `pr_number`.
pub fn pr_body_args(pr_number: u64) -> (args: Vec<String>)
    ensures
        views(args@) == seq!["pr"@, "view"@, decimal(pr_number as nat), "--json"@, "body"@, "-q"@, ".body"@],
{
    let number = u64_to_decimal(pr_number);
    let args = to_strings(&vec!["pr", "view", number.as_str(), "--json", "body", "-q", ".body"]);
    proof {
        assert(views(args@) =~= seq!["pr"@, "view"@, decimal(pr_number as nat), "--json"@, "body"@, "-q"@, ".body"@]);
    }
    args
}

/// The `gh` arguments that open the pull request of `branch` in a browser.
pub fn open_pr_args(branch: &str) -> (args: Vec<String>)
    ensures
        views(args@) == seq!["pr"@, "view"@, "--web"@, branch@],
{
    let args = to_strings(&vec!["pr", "view", "--web", branch]);
    proof {
        assert(views(args@) =~= seq!["pr"@, "view"@, "--web"@, branch@]);
    }
    args
}

} // verus!
