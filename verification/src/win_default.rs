//! Per-user registration as the default folder explorer.
//!
//! Windows resolves a double-clicked folder through two verb tables. An entry
//! under the current user's classes overrides the machine defaults for that
//! user only; deleting it restores the stock behaviour.

use crate::text::{contains, to_lowercase};
use crate::text;
use vstd::prelude::*;

verus! {

/// The keys, below the current user's root, that hold the override.
pub const OVERRIDE_KEYS: [&'static str; 2] = [
    "Software\\Classes\\Directory\\shell\\open",
    "Software\\Classes\\Folder\\shell\\open",
];

/// The command `value` runs the program `exe`, letter case aside.
pub open spec fn runs(value: Option<String>, exe: Seq<char>) -> bool {
    value matches Some(cmd) && text::occurs(text::lowercase(cmd@), text::lowercase(exe))
}

/// Whether the program `exe` is written into the override. `values` are the
/// commands under the keys of the override, where they could be read; without
/// a path of its own the program is not registered.
pub fn is_default(exe: Option<&str>, values: &Vec<Option<String>>) -> (r: bool)
    ensures
        r == (exe matches Some(e) && exists|i: int|
            0 <= i < values@.len() && runs(#[trigger] values@[i], e@)),
{
    let own = match exe {
        Some(e) => e,
        None => {
            return false;
        },
    };
    let low = to_lowercase(own);
    let mut i: usize = 0;
    while i < values.len()
        invariant
            i <= values.len(),
            exe == Some(own),
            low@ == text::lowercase(own@),
            forall|j: int| 0 <= j < i ==> !runs(#[trigger] values@[j], own@),
        decreases values.len() - i,
    {
        let hit: bool = match &values[i] {
            Some(cmd) => contains(to_lowercase(cmd.as_str()).as_str(), low.as_str()),
            None => false,
        };
        assert(hit == runs(values@[i as int], own@));
        if hit {
            return true;
        }
        i = i + 1;
    }
    false
}

/// The command that opens a folder with the program `exe`.
pub open spec fn open_command(exe: Seq<char>) -> Seq<char> {
    "\""@ + exe + "\" \"%V\""@
}

/// The command that is written under each key of the override to make `exe`
/// the default. `%V` is what Windows replaces by the clicked folder's path.
pub fn set_default(exe: &str) -> (r: String)
    ensures
        r@ == open_command(exe@),
{
    let mut r = "\"".to_owned();
    r.append(exe);
    r.append("\" \"%V\"");
    r
}

/// What deleting one key came to.
#[derive(Debug, PartialEq, Eq)]
pub enum KeyRemoval {
    Removed,
    /// There was nothing to restore: the override was never written.
    NotFound,
    Failed(String),
}

/// Whether removing the override can go on to the next key, or has failed.
pub fn clear_default(outcome: KeyRemoval) -> (r: Result<(), String>)
    ensures
        match outcome {
            KeyRemoval::Failed(e) => r == Err::<(), String>(e),
            _ => r is Ok,
        },
{
    match outcome {
        KeyRemoval::Removed => Ok(()),
        KeyRemoval::NotFound => Ok(()),
        KeyRemoval::Failed(e) => Err(e),
    }
}

/// The command names the program and hands it the folder, both in quotes; a
/// command that is already gone can be taken back.
pub proof fn law_the_command_names_the_program(exe: &str, r: String, gone: Result<(), String>)
    requires
        call_ensures(set_default, (exe,), r),
        call_ensures(clear_default, (KeyRemoval::NotFound,), gone),
    ensures
        text::occurs(r@, exe@),
        gone is Ok,
{
    reveal_strlit("\"");
    assert(r@.subrange(1, 1int + exe@.len()) =~= exe@);
    assert(text::occurs_at(r@, exe@, 1));
}

} // verus!
