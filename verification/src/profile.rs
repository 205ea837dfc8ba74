//! The three profiles of a modpack project and how the command line names
//! them.
use vstd::prelude::*;

verus! {

/// A profile of a modpack project: files for every build (`common`), for
/// development only (`dev`) or for release only (`release`).
#[derive(PartialEq, Eq, Structural, Clone, Copy, Debug)]
pub enum Profile {
    Common,
    Dev,
    Release,
}

/// The folder of a profile in the project.
pub open spec fn profile_dir(p: Profile) -> Seq<char> {
    match p {
        Profile::Common => "common"@,
        Profile::Dev => "dev"@,
        Profile::Release => "release"@,
    }
}

/// The profile a mod is added to or deleted from: "common" or "c", "dev" or
/// "d", "release" or "r".
pub open spec fn mod_profile_of(s: Seq<char>) -> Option<Profile> {
    if s == "common"@ || s == "c"@ {
        Some(Profile::Common)
    } else if s == "dev"@ || s == "d"@ {
        Some(Profile::Dev)
    } else if s == "release"@ || s == "r"@ {
        Some(Profile::Release)
    } else {
        None
    }
}

/// The profile pushed to a game instance: "dev" or "d", "release" or "r".
/// The common files go with either, so `common` is not pushed by itself.
pub open spec fn push_profile_of(s: Seq<char>) -> Option<Profile> {
    if s == "dev"@ || s == "d"@ {
        Some(Profile::Dev)
    } else if s == "release"@ || s == "r"@ {
        Some(Profile::Release)
    } else {
        None
    }
}

impl Profile {
    /// The folder of this profile: "common", "dev" or "release".
    pub fn dir_name(&self) -> (r: &'static str)
        ensures
            r@ == profile_dir(*self),
    {
        match self {
            Profile::Common => "common",
            Profile::Dev => "dev",
            Profile::Release => "release",
        }
    }
}

/// The profile that `add` and `delete` name by `s`; `None` when `s` names
/// none.
pub fn mod_profile(s: &str) -> (r: Option<Profile>)
    ensures
        r == mod_profile_of(s@),
{
    let s = s.to_owned();
    if s == String::from_str("common") || s == String::from_str("c") {
        Some(Profile::Common)
    } else if s == String::from_str("dev") || s == String::from_str("d") {
        Some(Profile::Dev)
    } else if s == String::from_str("release") || s == String::from_str("r") {
        Some(Profile::Release)
    } else {
        None
    }
}

/// The profile that `push` names by `s`; `None` when `s` names none.
pub fn push_profile(s: &str) -> (r: Option<Profile>)
    ensures
        r == push_profile_of(s@),
{
    let s = s.to_owned();
    if s == String::from_str("dev") || s == String::from_str("d") {
        Some(Profile::Dev)
    } else if s == String::from_str("release") || s == String::from_str("r") {
        Some(Profile::Release)
    } else {
        None
    }
}

/// Whether a command's argument asks for its help text: "-h" or "-help".
pub open spec fn is_help_arg(s: Seq<char>) -> bool {
    s == "-h"@ || s == "-help"@
}

/// Whether `s` asks for a command's help text.
pub fn is_help_flag(s: &str) -> (r: bool)
    ensures
        r == is_help_arg(s@),
{
    let s = s.to_owned();
    s == String::from_str("-h") || s == String::from_str("-help")
}

/// Naming a profile by its folder gives that profile back, for `add` and
/// `delete` and, for the profiles it pushes, for `push`.
pub proof fn lemma_profile_dir_names_profile(p: Profile)
    ensures
        mod_profile_of(profile_dir(p)) == Some(p),
        p != Profile::Common ==> push_profile_of(profile_dir(p)) == Some(p),
{
    reveal_strlit("common");
    reveal_strlit("c");
    reveal_strlit("dev");
    reveal_strlit("d");
    reveal_strlit("release");
    reveal_strlit("r");
    assert("common"@.len() != "c"@.len());
    assert("dev"@.len() != "common"@.len());
    assert("dev"@.len() != "c"@.len());
    assert("release"@.len() != "common"@.len());
    assert("release"@.len() != "c"@.len());
    assert("release"@.len() != "dev"@.len());
    assert("release"@.len() != "d"@.len());
}

} // verus!
