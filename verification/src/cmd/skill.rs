use vstd::prelude::*;

use crate::text::str_eq;

verus! {

/// What installing the workflow skill does with the file already there.
#[derive(PartialEq, Eq, Structural, Debug)]
pub enum SkillAction {
    /// No file yet: create it.
    Install,
    /// A file with other contents: overwrite it.
    Update,
    /// The file already holds the skill: leave it.
    UpToDate,
}

/// The file is written only when it is absent or differs from the skill.
pub fn install_action(existing: Option<&str>, content: &str) -> (a: SkillAction)
    ensures
        match existing {
            None => a == SkillAction::Install,
            Some(t) => if t@ == content@ {
                a == SkillAction::UpToDate
            } else {
                a == SkillAction::Update
            },
        },
{
    match existing {
        None => SkillAction::Install,
        Some(t) => if str_eq(t, content) {
            SkillAction::UpToDate
        } else {
            SkillAction::Update
        },
    }
}

} // verus!
