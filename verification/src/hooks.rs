use vstd::prelude::*;

use crate::text::{chars_of, concat, string_from_chars, trim, trimmed, views};

verus! {

/// The file that holds a hook: `<name>.md`, `default.md` when no name is given.
pub open spec fn hook_file_text(hook_name: Option<Seq<char>>) -> Seq<char> {
    match hook_name {
        Some(n) => n + ".md"@,
        None => "default"@ + ".md"@,
    }
}

pub fn hook_file_name(hook_name: Option<&str>) -> (f: String)
    ensures
        f@ == hook_file_text(
            match hook_name {
                Some(n) => Some(n@),
                None => None,
            },
        ),
{
    match hook_name {
        Some(n) => concat(n, ".md"),
        None => concat("default", ".md"),
    }
}

/// The heading printed above a hook's instructions.
pub open spec fn hook_heading_text(event: Seq<char>, hook_name: Option<Seq<char>>) -> Seq<char> {
    match hook_name {
        Some(n) => "Hook: "@ + event + "/"@ + n,
        None => "Hook: "@ + event,
    }
}

pub fn hook_heading(event: &str, hook_name: Option<&str>) -> (h: String)
    ensures
        h@ == hook_heading_text(
            event@,
            match hook_name {
                Some(n) => Some(n@),
                None => None,
            },
        ),
{
    match hook_name {
        Some(n) => concat(concat(concat("Hook: ", event).as_str(), "/").as_str(), n),
        None => concat("Hook: ", event),
    }
}

/// The instructions a hook file holds, without surrounding white space;
/// nothing when that leaves them empty.
pub fn hook_instructions(content: &str) -> (r: Option<String>)
    ensures
        trim(content@).len() == 0 ==> r is None,
        trim(content@).len() > 0 ==> (r matches Some(t) && t@ == trim(content@)),
{
    let t = trimmed(content);
    if t.as_str().is_empty() {
        None
    } else {
        Some(t)
    }
}

/// The hook names among the files of an event's directory: the files
/// ending in `.md`, without that ending.
pub open spec fn hook_names_in(files: Seq<Seq<char>>) -> Seq<Seq<char>>
    decreases files.len(),
{
    if files.len() == 0 {
        Seq::empty()
    } else {
        let rest = hook_names_in(files.drop_last());
        let f = files.last();
        if f.len() >= 3 && f.subrange(f.len() - 3, f.len() as int) == ".md"@ {
            rest.push(f.subrange(0, f.len() - 3))
        } else {
            rest
        }
    }
}

pub fn hook_names(files: &Vec<String>) -> (names: Vec<String>)
    ensures
        views(names@) == hook_names_in(views(files@)),
{
    let mut names: Vec<String> = Vec::new();
    let mut i: usize = 0;
    proof {
        assert(views(files@).take(0) =~= Seq::<Seq<char>>::empty());
    }
    while i < files.len()
        invariant
            i <= files@.len(),
            views(names@) == hook_names_in(views(files@).take(i as int)),
        decreases files@.len() - i,
    {
        proof {
            assert(views(files@).take(i + 1).drop_last() =~= views(files@).take(i as int));
            assert(views(files@).take(i + 1).last() == files@[i as int]@);
        }
        let cs = chars_of(files[i].as_str());
        let n = cs.len();
        if n >= 3 && cs[n - 3] == '.' && cs[n - 2] == 'm' && cs[n - 1] == 'd' {
            let stem = string_from_chars(&cs, 0, n - 3);
            let ghost before = views(names@);
            names.push(stem);
            proof {
                assert(cs@.subrange(n - 3, n as int) =~= ".md"@) by {
                    reveal_strlit(".md");
                }
                assert(views(names@) =~= before.push(cs@.subrange(0, n - 3)));
            }
        } else {
            proof {
                if n >= 3 && cs@.subrange(n - 3, n as int) == ".md"@ {
                    reveal_strlit(".md");
                    assert(cs@.subrange(n - 3, n as int)[0] == '.');
                    assert(cs@.subrange(n - 3, n as int)[1] == 'm');
                    assert(cs@.subrange(n - 3, n as int)[2] == 'd');
                }
            }
        }
        i += 1;
    }
    proof {
        assert(views(files@).take(files@.len() as int) =~= views(files@));
    }
    names
}

} // verus!
