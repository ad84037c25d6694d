use vstd::prelude::*;

use crate::dev::{dev_port, port_of};
use crate::json::JsonValue;
use crate::stack::StackState;
use crate::text::{concat, decimal, join, join_strings, pad, pad_right, u64_to_decimal, views};

verus! {

/// How long ago something happened, in its largest whole unit.
pub open spec fn age_text(secs: Option<u64>) -> Seq<char> {
    match secs {
        Some(s) => if s < 60 {
            decimal(s as nat) + "s"@
        } else if s < 3600 {
            decimal((s / 60) as nat) + "m"@
        } else if s < 86400 {
            decimal((s / 3600) as nat) + "h"@
        } else {
            decimal((s / 86400) as nat) + "d"@
        },
        None => "-"@,
    }
}

pub fn format_age(secs: Option<u64>) -> (t: String)
    ensures
        t@ == age_text(secs),
{
    match secs {
        Some(s) => {
            if s < 60 {
                concat(u64_to_decimal(s).as_str(), "s")
            } else if s < 3600 {
                concat(u64_to_decimal(s / 60).as_str(), "m")
            } else if s < 86400 {
                concat(u64_to_decimal(s / 3600).as_str(), "h")
            } else {
                concat(u64_to_decimal(s / 86400).as_str(), "d")
            }
        },
        None => "-".to_string(),
    }
}

/// One line of the branch table: marker, branch, pull request, CI, age,
/// port and status, in columns of 4, 30, 8, 6, 6 and 7 characters.
pub open spec fn table_row(
    m: Seq<char>,
    b: Seq<char>,
    pr: Seq<char>,
    ci: Seq<char>,
    age: Seq<char>,
    port: Seq<char>,
    st: Seq<char>,
) -> Seq<char> {
    pad(m, 4) + " "@ + pad(b, 30) + " "@ + pad(pr, 8) + " "@ + pad(ci, 6) + " "@ + pad(age, 6) + " "@ + pad(port, 7)
        + " "@ + st
}

pub fn row(m: &str, b: &str, pr: &str, ci: &str, age: &str, port: &str, st: &str) -> (line: String)
    ensures
        line@ == table_row(m@, b@, pr@, ci@, age@, port@, st@),
{
    let mut line = pad_right(m, 4);
    line.append(" ");
    line.append(pad_right(b, 30).as_str());
    line.append(" ");
    line.append(pad_right(pr, 8).as_str());
    line.append(" ");
    line.append(pad_right(ci, 6).as_str());
    line.append(" ");
    line.append(pad_right(age, 6).as_str());
    line.append(" ");
    line.append(pad_right(port, 7).as_str());
    line.append(" ");
    line.append(st);
    line
}

/// The counts of staged, modified and untracked files, those above zero,
/// as `2S 1M 3U`.
pub open spec fn counts_text(staged: nat, modified: nat, untracked: nat) -> Seq<char> {
    join(
        (if staged > 0 { seq![decimal(staged) + "S"@] } else { Seq::empty() }) + (if modified > 0 {
            seq![decimal(modified) + "M"@]
        } else {
            Seq::empty()
        }) + (if untracked > 0 { seq![decimal(untracked) + "U"@] } else { Seq::empty() }),
        " "@,
    )
}

/// The state of a branch's worktree: none, clean, or its counts.
pub open spec fn status_text(has_worktree: bool, staged: nat, modified: nat, untracked: nat) -> Seq<char> {
    if has_worktree {
        if staged == 0 && modified == 0 && untracked == 0 {
            "clean"@
        } else {
            counts_text(staged, modified, untracked)
        }
    } else {
        "no worktree"@
    }
}

pub fn status_label(has_worktree: bool, staged: usize, modified: usize, untracked: usize) -> (t: String)
    ensures
        t@ == status_text(has_worktree, staged as nat, modified as nat, untracked as nat),
{
    if !has_worktree {
        return "no worktree".to_string();
    }
    if staged == 0 && modified == 0 && untracked == 0 {
        return "clean".to_string();
    }
    let mut parts: Vec<String> = Vec::new();
    if staged > 0 {
        parts.push(concat(u64_to_decimal(staged as u64).as_str(), "S"));
    }
    if modified > 0 {
        parts.push(concat(u64_to_decimal(modified as u64).as_str(), "M"));
    }
    if untracked > 0 {
        parts.push(concat(u64_to_decimal(untracked as u64).as_str(), "U"));
    }
    proof {
        assert(views(parts@) =~= (if staged > 0 { seq![decimal(staged as nat) + "S"@] } else { Seq::empty() }) + (
        if modified > 0 {
            seq![decimal(modified as nat) + "M"@]
        } else {
            Seq::empty()
        }) + (if untracked > 0 { seq![decimal(untracked as nat) + "U"@] } else { Seq::empty() }));
    }
    join_strings(&parts, " ")
}

/// The table line of one branch of the stack.
pub open spec fn branch_row_text(
    name: Seq<char>,
    is_current: bool,
    pr_number: Option<u64>,
    ci: Seq<char>,
    age: Option<u64>,
    has_worktree: bool,
    staged: nat,
    modified: nat,
    untracked: nat,
) -> Seq<char> {
    table_row(
        if is_current { " *"@ } else { "  "@ },
        name,
        match pr_number {
            Some(n) => "#"@ + decimal(n as nat),
            None => "-"@,
        },
        if ci.len() == 0 { "-"@ } else { ci },
        age_text(age),
        if has_worktree { decimal(port_of(name) as nat) } else { "-"@ },
        status_text(has_worktree, staged, modified, untracked),
    )
}

pub fn branch_row(
    name: &str,
    is_current: bool,
    pr_number: Option<u64>,
    ci: &str,
    age: Option<u64>,
    has_worktree: bool,
    staged: usize,
    modified: usize,
    untracked: usize,
) -> (line: String)
    ensures
        line@ == branch_row_text(
            name@,
            is_current,
            pr_number,
            ci@,
            age,
            has_worktree,
            staged as nat,
            modified as nat,
            untracked as nat,
        ),
{
    let m = if is_current { " *" } else { "  " };
    let pr = match pr_number {
        Some(n) => concat("#", u64_to_decimal(n).as_str()),
        None => "-".to_string(),
    };
    let ci_text = if ci.is_empty() { "-" } else { ci };
    let age_label = format_age(age);
    let port = if has_worktree { u64_to_decimal(dev_port(name) as u64) } else { "-".to_string() };
    let status = status_label(has_worktree, staged, modified, untracked);
    row(m, name, pr.as_str(), ci_text, age_label.as_str(), port.as_str(), status.as_str())
}

/// What `ez list` gathered about one branch of the stack.
pub struct BranchData {
    pub name: String,
    pub pr_number: Option<u64>,
    pub parent: String,
    pub wt_path: Option<String>,
    pub ci: String,
    pub age: Option<u64>,
    pub wt_status: (usize, usize, usize),
}

pub open spec fn opt_number(n: Option<u64>) -> JsonValue {
    match n {
        Some(v) => JsonValue::Number(Some(v)),
        None => JsonValue::Null,
    }
}

fn opt_number_exec(n: Option<u64>) -> (v: JsonValue)
    ensures
        v == opt_number(n),
{
    match n {
        Some(x) => JsonValue::Number(Some(x)),
        None => JsonValue::Null,
    }
}

/// The keys of the object as views, with the values.
pub open spec fn members_view(v: JsonValue) -> Seq<(Seq<char>, JsonValue)> {
    match v {
        JsonValue::Object(m) => m@.map_values(|e: (String, JsonValue)| (e.0@, e.1)),
        _ => Seq::empty(),
    }
}

/// The JSON entry of `ez list --json` for a branch of the stack: whether
/// it is current, its parent, pull request, CI mark (null when there is
/// none), seconds since its last commit, and, when it has a worktree, its
/// port, worktree path and file counts.
pub open spec fn entry_members(b: BranchData, current: Seq<char>) -> Seq<(Seq<char>, JsonValue)> {
    seq![
        ("branch"@, JsonValue::String(b.name)),
        ("is_current"@, JsonValue::Bool(b.name@ == current)),
        ("parent"@, JsonValue::String(b.parent)),
        ("pr_number"@, opt_number(b.pr_number)),
        ("ci_status"@, if b.ci@.len() == 0 { JsonValue::Null } else { JsonValue::String(b.ci) }),
        ("last_activity_secs"@, opt_number(b.age)),
    ]
}

fn str_value(s: &String) -> (v: JsonValue)
    ensures
        v == JsonValue::String(*s),
{
    JsonValue::String(s.clone())
}

/// `v` is the entry of `ez list --json` for `b`: the members of
/// `entry_members`, then the port, the worktree path and the file counts,
/// each null when `b` has no worktree.
pub open spec fn is_branch_entry(v: JsonValue, b: BranchData, current: Seq<char>) -> bool {
    &&& members_view(v).take(6) == entry_members(b, current)
    &&& members_view(v).len() == 9
    &&& members_view(v)[6].0 == "dev_port"@
    &&& members_view(v)[6].1 == (if b.wt_path is Some { JsonValue::Number(Some(port_of(b.name@) as u64)) } else {
        JsonValue::Null
    })
    &&& members_view(v)[7].0 == "worktree_path"@
    &&& members_view(v)[7].1 == (match b.wt_path {
        Some(p) => JsonValue::String(p),
        None => JsonValue::Null,
    })
    &&& members_view(v)[8].0 == "working_tree"@
    &&& b.wt_path is None ==> members_view(v)[8].1 == JsonValue::Null
    &&& b.wt_path is Some ==> members_view(members_view(v)[8].1) == seq![
        ("staged"@, JsonValue::Number(Some(b.wt_status.0 as u64))),
        ("modified"@, JsonValue::Number(Some(b.wt_status.1 as u64))),
        ("untracked"@, JsonValue::Number(Some(b.wt_status.2 as u64))),
    ]
}

/// The entry of `ez list --json` for one branch.
pub fn branch_entry(b: &BranchData, current: &str) -> (v: JsonValue)
    ensures
        is_branch_entry(v, *b, current@),
{
    let has_wt = b.wt_path.is_some();
    let ci = if b.ci.as_str().is_empty() { JsonValue::Null } else { str_value(&b.ci) };
    let port = if has_wt { JsonValue::Number(Some(dev_port(b.name.as_str()) as u64)) } else { JsonValue::Null };
    let path = match &b.wt_path {
        Some(p) => str_value(p),
        None => JsonValue::Null,
    };
    let working_tree = if has_wt {
        JsonValue::Object(vec![
            ("staged".to_string(), JsonValue::Number(Some(b.wt_status.0 as u64))),
            ("modified".to_string(), JsonValue::Number(Some(b.wt_status.1 as u64))),
            ("untracked".to_string(), JsonValue::Number(Some(b.wt_status.2 as u64))),
        ])
    } else {
        JsonValue::Null
    };
    let v = JsonValue::Object(vec![
        ("branch".to_string(), str_value(&b.name)),
        ("is_current".to_string(), JsonValue::Bool(crate::text::str_eq(b.name.as_str(), current))),
        ("parent".to_string(), str_value(&b.parent)),
        ("pr_number".to_string(), opt_number_exec(b.pr_number)),
        ("ci_status".to_string(), ci),
        ("last_activity_secs".to_string(), opt_number_exec(b.age)),
        ("dev_port".to_string(), port),
        ("worktree_path".to_string(), path),
        ("working_tree".to_string(), working_tree),
    ]);
    proof {
        assert(members_view(v).take(6) =~= entry_members(*b, current@));
        if has_wt {
            assert(members_view(members_view(v)[8].1) =~= seq![
                ("staged"@, JsonValue::Number(Some(b.wt_status.0 as u64))),
                ("modified"@, JsonValue::Number(Some(b.wt_status.1 as u64))),
                ("untracked"@, JsonValue::Number(Some(b.wt_status.2 as u64))),
            ]);
        }
    }
    v
}

/// The entry of `ez list --json` for the trunk.
pub fn trunk_entry(trunk: &String, current: &str) -> (v: JsonValue)
    ensures
        members_view(v) == seq![
            ("branch"@, JsonValue::String(*trunk)),
            ("is_trunk"@, JsonValue::Bool(true)),
            ("is_current"@, JsonValue::Bool(current@ == trunk@)),
        ],
{
    let v = JsonValue::Object(vec![
        ("branch".to_string(), str_value(trunk)),
        ("is_trunk".to_string(), JsonValue::Bool(true)),
        ("is_current".to_string(), JsonValue::Bool(crate::text::str_eq(current, trunk.as_str()))),
    ]);
    proof {
        assert(members_view(v) =~= seq![
            ("branch"@, JsonValue::String(*trunk)),
            ("is_trunk"@, JsonValue::Bool(true)),
            ("is_current"@, JsonValue::Bool(current@ == trunk@)),
        ]);
    }
    v
}

/// The members of the entry of `ez list --json` for the trunk.
pub open spec fn trunk_members(trunk: String, current: Seq<char>) -> Seq<(Seq<char>, JsonValue)> {
    seq![
        ("branch"@, JsonValue::String(trunk)),
        ("is_trunk"@, JsonValue::Bool(true)),
        ("is_current"@, JsonValue::Bool(current == trunk@)),
    ]
}

/// The document `ez list --json` prints: the trunk's entry, then one entry
/// for each branch, in the order given.
pub fn list_entries(trunk: &String, current: &str, branches: &[BranchData]) -> (entries: Vec<JsonValue>)
    ensures
        entries@.len() == branches@.len() + 1,
        members_view(entries@[0]) == trunk_members(*trunk, current@),
        forall|i: int| 0 <= i < branches@.len() ==> is_branch_entry(#[trigger] entries@[i + 1], branches@[i], current@),
{
    let mut entries: Vec<JsonValue> = Vec::new();
    entries.push(trunk_entry(trunk, current));
    let n = branches.len();
    for i in 0..n
        invariant
            n == branches@.len(),
            entries@.len() == i + 1,
            members_view(entries@[0]) == trunk_members(*trunk, current@),
            forall|j: int| 0 <= j < i ==> is_branch_entry(#[trigger] entries@[j + 1], branches@[j], current@),
    {
        entries.push(branch_entry(&branches[i], current));
    }
    entries
}

/// What `ez list` needs of each branch before it asks git and gh: its name,
/// pull request and parent, in topological order.
pub fn list_specs(state: &StackState) -> (specs: Vec<(String, Option<u64>, String)>)
    ensures
        state.is_topo_order(specs@.map_values(|e: (String, Option<u64>, String)| e.0@)),
        forall|i: int|
            0 <= i < specs@.len() ==> (#[trigger] specs@[i]).1 == state.meta(specs@[i].0@).pr_number
                && specs@[i].2@ == state.parent_of(specs@[i].0@),
{
    let order = state.topo_order();
    let mut specs: Vec<(String, Option<u64>, String)> = Vec::new();
    let n = order.len();
    for i in 0..n
        invariant
            n == order@.len(),
            state.is_topo_order(views(order@)),
            specs@.len() == i,
            forall|j: int| 0 <= j < i ==> (#[trigger] specs@[j]).0@ == order@[j]@,
            forall|j: int|
                0 <= j < i ==> (#[trigger] specs@[j]).1 == state.meta(specs@[j].0@).pr_number
                    && specs@[j].2@ == state.parent_of(specs@[j].0@),
    {
        proof {
            assert(views(order@)[i as int] == order@[i as int]@);
        }
        match state.get_branch(order[i].as_str()) {
            Ok(meta) => {
                specs.push((order[i].clone(), meta.pr_number, meta.parent.clone()));
            },
            Err(_) => {
                proof {
                    assert(false);
                }
            },
        }
    }
    proof {
        assert(specs@.map_values(|e: (String, Option<u64>, String)| e.0@) =~= views(order@));
    }
    specs
}

/// Eighty dashes, the rule under the table's header.
pub open spec fn rule_text() -> Seq<char> {
    Seq::new(80, |i: int| '-')
}

fn rule() -> (t: String)
    ensures
        t@ == rule_text(),
{
    let mut t = String::new();
    let mut i: usize = 0;
    proof {
        reveal_strlit("-");
        assert(t@ =~= Seq::new(0, |k: int| '-'));
    }
    while i < 80
        invariant
            i <= 80,
            t@ == Seq::new(i as nat, |k: int| '-'),
            "-"@ == seq!['-'],
        decreases 80 - i,
    {
        t = concat(t.as_str(), "-");
        i += 1;
        proof {
            assert(t@ =~= Seq::new(i as nat, |k: int| '-'));
        }
    }
    t
}

/// The lines of the table `ez list` prints: the header, a rule, the trunk
/// (marked when current) and one line for each branch, in the order given.
pub fn list_table(trunk: &str, current: &str, trunk_age: &str, branches: &[BranchData]) -> (lines: Vec<String>)
    ensures
        lines@.len() == branches@.len() + 3,
        lines@[0]@ == table_row(""@, "BRANCH"@, "PR"@, "CI"@, "AGE"@, "PORT"@, "STATUS"@),
        lines@[1]@ == rule_text(),
        lines@[2]@ == table_row(
            if current@ == trunk@ { " *"@ } else { "  "@ },
            trunk@ + " (trunk)"@,
            "-"@,
            "-"@,
            trunk_age@,
            "-"@,
            "-"@,
        ),
        forall|i: int|
            0 <= i < branches@.len() ==> (#[trigger] lines@[i + 3])@ == branch_row_text(
                branches@[i].name@,
                branches@[i].name@ == current@,
                branches@[i].pr_number,
                branches@[i].ci@,
                branches@[i].age,
                branches@[i].wt_path is Some,
                branches@[i].wt_status.0 as nat,
                branches@[i].wt_status.1 as nat,
                branches@[i].wt_status.2 as nat,
            ),
{
    let mut lines: Vec<String> = Vec::new();
    lines.push(row("", "BRANCH", "PR", "CI", "AGE", "PORT", "STATUS"));
    lines.push(rule());
    let m = if crate::text::str_eq(current, trunk) { " *" } else { "  " };
    let label = concat(trunk, " (trunk)");
    lines.push(row(m, label.as_str(), "-", "-", trunk_age, "-", "-"));
    let n = branches.len();
    for i in 0..n
        invariant
            n == branches@.len(),
            lines@.len() == i + 3,
            lines@[0]@ == table_row(""@, "BRANCH"@, "PR"@, "CI"@, "AGE"@, "PORT"@, "STATUS"@),
            lines@[1]@ == rule_text(),
            lines@[2]@ == table_row(
                if current@ == trunk@ { " *"@ } else { "  "@ },
                trunk@ + " (trunk)"@,
                "-"@,
                "-"@,
                trunk_age@,
                "-"@,
                "-"@,
            ),
            forall|j: int|
                0 <= j < i ==> (#[trigger] lines@[j + 3])@ == branch_row_text(
                    branches@[j].name@,
                    branches@[j].name@ == current@,
                    branches@[j].pr_number,
                    branches@[j].ci@,
                    branches@[j].age,
                    branches@[j].wt_path is Some,
                    branches@[j].wt_status.0 as nat,
                    branches@[j].wt_status.1 as nat,
                    branches@[j].wt_status.2 as nat,
                ),
    {
        let b = &branches[i];
        let (st, mo, un) = b.wt_status;
        lines.push(
            branch_row(
                b.name.as_str(),
                crate::text::str_eq(b.name.as_str(), current),
                b.pr_number,
                b.ci.as_str(),
                b.age,
                b.wt_path.is_some(),
                st,
                mo,
                un,
            ),
        );
    }
    lines
}

/// Whether `ez list` adds a line for the current branch: when it is neither
/// the trunk nor a branch of the stack.
pub fn shows_untracked(state: &StackState, current: &str) -> (b: bool)
    ensures
        b == (!state.trunk_is(current@) && !state.managed(current@)),
{
    !state.is_trunk(current) && !state.is_managed(current)
}

/// The line `ez list` adds for a current branch that the stack does not
/// record.
pub fn untracked_row(current: &str, age: Option<u64>) -> (line: String)
    ensures
        line@ == table_row(" *"@, current@, "-"@, "-"@, age_text(age), "-"@, "not tracked"@),
{
    let age_label = format_age(age);
    row(" *", current, "-", "-", age_label.as_str(), "-", "not tracked")
}

} // verus!
