use vstd::prelude::*;

use crate::text::{ascii_lower, concat, decimal, to_ascii_lowercase, u64_to_decimal};

verus! {

/// `s` in the terminal's faint style.
pub open spec fn dim_text(s: Seq<char>) -> Seq<char> {
    "\x1b[2m"@ + s + "\x1b[0m"@
}

pub fn dim(s: &str) -> (t: String)
    ensures
        t@ == dim_text(s@),
{
    let a = concat("\x1b[2m", s);
    concat(a.as_str(), "\x1b[0m")
}

/// A branch name, in bold when it is the current branch.
pub open spec fn branch_display_text(name: Seq<char>, is_current: bool) -> Seq<char> {
    if is_current {
        "\x1b[1m"@ + name + "\x1b[0m"@
    } else {
        name
    }
}

pub fn branch_display(name: &str, is_current: bool) -> (t: String)
    ensures
        t@ == branch_display_text(name@, is_current),
{
    if is_current {
        let a = concat("\x1b[1m", name);
        concat(a.as_str(), "\x1b[0m")
    } else {
        name.to_string()
    }
}

/// A pull request's number with its state in lower case, or with
/// "(draft)" when it is a draft.
pub open spec fn badge_text(number: u64, state: Seq<char>, is_draft: bool) -> Seq<char> {
    if is_draft {
        "#"@ + decimal(number as nat) + " (draft)"@
    } else {
        "#"@ + decimal(number as nat) + " "@ + ascii_lower(state)
    }
}

pub fn pr_badge(number: u64, state: &str, is_draft: bool) -> (t: String)
    ensures
        t@ == badge_text(number, state@, is_draft),
{
    let n = concat("#", u64_to_decimal(number).as_str());
    if is_draft {
        concat(n.as_str(), " (draft)")
    } else {
        let a = concat(n.as_str(), " ");
        concat(a.as_str(), to_ascii_lowercase(state).as_str())
    }
}

/// The tree's vertical rules for the given ancestors, one column each.
pub open spec fn rules_text(anc: Seq<bool>) -> Seq<char>
    decreases anc.len(),
{
    if anc.len() == 0 {
        Seq::empty()
    } else {
        rules_text(anc.drop_last()) + if anc.last() {
            "    "@
        } else {
            "│   "@
        }
    }
}

/// The drawing in front of a tree line: a column for each ancestor below
/// the top one, then the branch's own connector when it is not the root.
pub open spec fn tree_prefix_text(depth: nat, is_last: bool, anc: Seq<bool>) -> Seq<char> {
    (if anc.len() > 0 { rules_text(anc.drop_first()) } else { Seq::empty() }) + if depth > 0 {
        if is_last {
            "└── "@
        } else {
            "├── "@
        }
    } else {
        Seq::empty()
    }
}

/// One line of the stack tree, drawn with box characters.
pub fn tree_line(depth: usize, is_last: bool, anc: &Vec<bool>, text: &str) -> (line: String)
    ensures
        line@ == tree_prefix_text(depth as nat, is_last, anc@) + text@,
{
    let mut line = String::new();
    let n = anc.len();
    let mut i: usize = 1;
    proof {
        if n > 0 {
            assert(anc@.drop_first().take(0) =~= Seq::<bool>::empty());
        }
    }
    while i < n
        invariant
            n == anc@.len(),
            1 <= i,
            n > 0 ==> i <= n,
            n > 0 ==> line@ == rules_text(anc@.drop_first().take(i - 1)),
            n == 0 ==> line@ == Seq::<char>::empty(),
        decreases n - i,
    {
        proof {
            assert(anc@.drop_first().take(i as int).drop_last() =~= anc@.drop_first().take(i - 1));
            assert(anc@.drop_first().take(i as int).last() == anc@[i as int]);
        }
        line = concat(line.as_str(), if anc[i] { "    " } else { "│   " });
        i += 1;
    }
    proof {
        if n > 0 {
            assert(anc@.drop_first().take(n - 1) =~= anc@.drop_first());
        }
    }
    if depth > 0 {
        line = concat(line.as_str(), if is_last { "└── " } else { "├── " });
    }
    concat(line.as_str(), text)
}

/// A line of information, indented.
pub open spec fn info_text(msg: Seq<char>) -> Seq<char> {
    "  "@ + msg
}

pub fn info_line(msg: &str) -> (t: String)
    ensures
        t@ == info_text(msg@),
{
    concat("  ", msg)
}

/// A hint of what to do next.
pub open spec fn hint_text(msg: Seq<char>) -> Seq<char> {
    "  → "@ + msg
}

pub fn hint_line(msg: &str) -> (t: String)
    ensures
        t@ == hint_text(msg@),
{
    concat("  → ", msg)
}

/// A warning.
pub open spec fn warn_text(msg: Seq<char>) -> Seq<char> {
    "! "@ + msg
}

pub fn warn_line(msg: &str) -> (t: String)
    ensures
        t@ == warn_text(msg@),
{
    concat("! ", msg)
}

} // verus!
