//! Minecraft versions: which ones a modpack can be made for, and what an
//! answer to the version prompt asks for.
use vstd::prelude::*;

verus! {

/// A Minecraft version as Mojang's version list gives it.
pub struct Version {
    pub id: String,
    /// "release", "snapshot", "old_beta" or "old_alpha".
    pub version_type: String,
}

/// A version as its id and its type.
pub open spec fn version_view(v: Version) -> (Seq<char>, Seq<char>) {
    (v.id@, v.version_type@)
}

pub open spec fn versions_view(vs: Seq<Version>) -> Seq<(Seq<char>, Seq<char>)> {
    vs.map_values(|v: Version| version_view(v))
}

/// The release versions of a list, in the order of the list.
pub open spec fn releases(vs: Seq<(Seq<char>, Seq<char>)>) -> Seq<(Seq<char>, Seq<char>)>
    decreases vs.len(),
{
    if vs.len() == 0 {
        vs
    } else if vs.last().1 == "release"@ {
        releases(vs.drop_last()).push(vs.last())
    } else {
        releases(vs.drop_last())
    }
}

/// Exactly the releases of a list are kept, in order: every version kept has
/// the type "release", every release of the list is kept, and the result is
/// the list filtered by that type.
pub proof fn lemma_releases_are_the_releases(vs: Seq<(Seq<char>, Seq<char>)>)
    ensures
        forall|i: int| 0 <= i < releases(vs).len() ==> (#[trigger] releases(vs)[i]).1
            == "release"@,
        forall|j: int| 0 <= j < vs.len() && (#[trigger] vs[j]).1 == "release"@ ==> releases(
            vs,
        ).contains(vs[j]),
        releases(vs) == vs.filter(|p: (Seq<char>, Seq<char>)| p.1 == "release"@),
    decreases vs.len(),
{
    let is_release = |p: (Seq<char>, Seq<char>)| p.1 == "release"@;
    reveal_with_fuel(Seq::filter, 1);
    if vs.len() > 0 {
        let init = vs.drop_last();
        lemma_releases_are_the_releases(init);
        assert forall|j: int| 0 <= j < vs.len() && (#[trigger] vs[j]).1 == "release"@ implies releases(
            vs,
        ).contains(vs[j]) by {
            if j < vs.len() - 1 {
                assert(init[j] == vs[j]);
                let k = choose|k: int| 0 <= k < releases(init).len() && releases(init)[k] == init[j];
                if vs.last().1 == "release"@ {
                    assert(releases(vs)[k] == vs[j]);
                }
            } else {
                assert(releases(vs).last() == vs[j]);
                assert(releases(vs)[releases(vs).len() - 1] == vs[j]);
            }
        }
        assert(vs.filter(is_release) == init.filter(is_release) + (if is_release(vs.last()) {
            seq![vs.last()]
        } else {
            Seq::empty()
        }));
        if vs.last().1 == "release"@ {
            assert(releases(vs) =~= vs.filter(is_release));
        } else {
            assert(releases(vs) =~= vs.filter(is_release));
        }
    } else {
        assert(vs.filter(is_release) =~= vs);
    }
}

/// The versions of the list that a modpack can be made for: the
/// releases, in the order of the list.
pub fn release_versions(versions: &Vec<Version>) -> (r: Vec<Version>)
    ensures
        versions_view(r@) == releases(versions_view(versions@)),
{
    let release = String::from_str("release");
    let mut out: Vec<Version> = Vec::new();
    for i in 0..versions.len()
        invariant
            release@ == "release"@,
            versions_view(out@) == releases(versions_view(versions@.take(i as int))),
    {
        let v = &versions[i];
        let ghost before = versions_view(out@);
        assert(versions_view(versions@.take(i + 1)).drop_last() =~= versions_view(
            versions@.take(i as int),
        ));
        if v.version_type == release {
            out.push(Version { id: v.id.clone(), version_type: v.version_type.clone() });
            assert(versions_view(out@) =~= before.push(version_view(*v)));
        }
    }
    assert(versions@.take(versions@.len() as int) =~= versions@);
    out
}

/// What an answer to the Minecraft version prompt asks for.
#[derive(PartialEq, Eq, Structural, Clone, Copy, Debug)]
pub enum McInput {
    /// "0": give up.
    Cancel,
    /// "list": show every version that can be chosen.
    List,
    /// A version that can be chosen.
    Accept,
    /// Anything else: ask again.
    NoMatch,
}

/// The meaning of an answer to the version prompt, given the versions that
/// can be chosen.
pub open spec fn mc_input_meaning(input: Seq<char>, versions: Seq<Version>) -> McInput {
    if input == "0"@ {
        McInput::Cancel
    } else if input == "list"@ {
        McInput::List
    } else if exists|i: int| 0 <= i < versions.len() && (#[trigger] versions[i]).id@ == input {
        McInput::Accept
    } else {
        McInput::NoMatch
    }
}

/// What the answer `input` to the version prompt asks for.
pub fn mc_input_action(input: &str, versions: &Vec<Version>) -> (r: McInput)
    ensures
        r == mc_input_meaning(input@, versions@),
{
    let s = input.to_owned();
    if s == String::from_str("0") {
        return McInput::Cancel;
    }
    if s == String::from_str("list") {
        return McInput::List;
    }
    for i in 0..versions.len()
        invariant
            s@ == input@,
            input@ != "0"@,
            input@ != "list"@,
            forall|j: int| 0 <= j < i ==> (#[trigger] versions@[j]).id@ != input@,
    {
        if versions[i].id == s {
            assert(versions@[i as int].id@ == input@);
            return McInput::Accept;
        }
    }
    McInput::NoMatch
}

} // verus!
