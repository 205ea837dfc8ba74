//! Searching Modrinth for a mod: the query that is sent, the projects and
//! versions read from the answers, and the choice among them.
use vstd::prelude::*;
use crate::download::{has_str, str_member};
use crate::json::Json;
use crate::modpack::{loader_kind_category, ModPack};
use crate::resource::{ModrinthFile, Resource, Source};

verus! {

/// The `facets` of a Modrinth search: mods for the modpack's Minecraft
/// version and loader.
pub open spec fn spec_search_facets(mc_version: Seq<char>, category: Seq<char>) -> Seq<char> {
    "[[\"versions:"@ + mc_version + "\"],[\"categories:"@ + category + "\"],[\"project_type:mod\"]]"@
}

/// The `facets` parameter of a Modrinth search for mods that fit `modpack`.
pub fn search_facets(modpack: &ModPack) -> (r: String)
    ensures
        r@ == spec_search_facets(
            modpack.spec_mc_version(),
            loader_kind_category(modpack.spec_modloader().0),
        ),
{
    String::from_str("[[\"versions:").concat(modpack.mc_version().as_str()).concat(
        "\"],[\"categories:",
    ).concat(modpack.modloader().get_lowercase_name()).concat("\"],[\"project_type:mod\"]]")
}

/// A JSON array of one string, as the version query of Modrinth takes its
/// loaders and game versions: `["s"]`.
pub open spec fn one_element_list(s: Seq<char>) -> Seq<char> {
    "[\""@ + s + "\"]"@
}

/// The `loaders` and `game_versions` parameters that ask Modrinth for the
/// versions of a project that fit `modpack`.
pub fn version_query(modpack: &ModPack) -> (r: (String, String))
    ensures
        r.0@ == one_element_list(loader_kind_category(modpack.spec_modloader().0)),
        r.1@ == one_element_list(modpack.spec_mc_version()),
{
    let loaders = String::from_str("[\"").concat(modpack.modloader().get_lowercase_name()).concat(
        "\"]",
    );
    let game_versions = String::from_str("[\"").concat(modpack.mc_version().as_str()).concat(
        "\"]",
    );
    (loaders, game_versions)
}

/// The address of the Modrinth API that lists the versions of a project.
pub fn project_versions_url(project_id: &str) -> (r: String)
    ensures
        r@ == "https://api.modrinth.com/v2/project/"@ + project_id@ + "/version"@,
{
    String::from_str("https://api.modrinth.com/v2/project/").concat(project_id).concat("/version")
}

/// The projects found by a search, as (title, project ID), when the answer
/// has an array `hits` of projects that each have both as strings.
pub open spec fn search_hits(body: Json) -> Option<Seq<(Seq<char>, Seq<char>)>> {
    match body.member("hits"@) {
        Some(Json::Array(a)) => if forall|i: int|
            0 <= i < a@.len() ==> has_str(#[trigger] a@[i], "title"@) && has_str(
                a@[i],
                "project_id"@,
            ) {
            Some(
                a@.map_values(
                    |m: Json| (str_member(m, "title"@), str_member(m, "project_id"@)),
                ),
            )
        } else {
            None
        },
        _ => None,
    }
}

/// The projects listed in the answer to a search, as (title, project ID);
/// `None` when the answer does not list them so.
pub fn read_search_hits(body: &Json) -> (r: Option<Vec<(String, String)>>)
    ensures
        r is Some <==> search_hits(*body) is Some,
        r matches Some(v) ==> search_hits(*body) == Some(
            v@.map_values(|p: (String, String)| (p.0@, p.1@)),
        ),
{
    let hits = match body.get("hits") {
        Some(Json::Array(a)) => a,
        _ => return None,
    };
    let mut out: Vec<(String, String)> = Vec::new();
    for i in 0..hits.len()
        invariant
            body.member("hits"@) == Some(Json::Array(*hits)),
            out@.len() == i,
            forall|j: int|
                0 <= j < i ==> has_str(#[trigger] hits@[j], "title"@) && has_str(
                    hits@[j],
                    "project_id"@,
                ),
            forall|j: int|
                0 <= j < i ==> (#[trigger] out@[j]).0@ == str_member(hits@[j], "title"@)
                    && out@[j].1@ == str_member(hits@[j], "project_id"@),
    {
        let m = &hits[i];
        let title = match m.get("title") {
            Some(Json::Str(s)) => s.clone(),
            _ => return None,
        };
        let project_id = match m.get("project_id") {
            Some(Json::Str(s)) => s.clone(),
            _ => return None,
        };
        out.push((title, project_id));
    }
    proof {
        let a = hits@;
        assert(forall|i: int|
            0 <= i < a.len() ==> has_str(#[trigger] a[i], "title"@) && has_str(
                a[i],
                "project_id"@,
            ));
        assert(a.map_values(|m: Json| (str_member(m, "title"@), str_member(m, "project_id"@)))
            =~= out@.map_values(|p: (String, String)| (p.0@, p.1@)));
    }
    Some(out)
}

/// Whether a version of a project names its ID, type and number as strings.
pub open spec fn version_entry_readable(v: Json) -> bool {
    has_str(v, "id"@) && has_str(v, "version_type"@) && has_str(v, "version_number"@)
}

/// The versions of a project, as (ID, type, number), when the answer is an
/// array of versions that each have all three as strings.
pub open spec fn project_versions(body: Json) -> Option<Seq<(Seq<char>, Seq<char>, Seq<char>)>> {
    match body {
        Json::Array(a) => if forall|i: int|
            0 <= i < a@.len() ==> #[trigger] version_entry_readable(a@[i]) {
            Some(
                a@.map_values(
                    |v: Json|
                        (
                            str_member(v, "id"@),
                            str_member(v, "version_type"@),
                            str_member(v, "version_number"@),
                        ),
                ),
            )
        } else {
            None
        },
        _ => None,
    }
}

/// The versions listed in the answer about a project's versions, as (ID,
/// type, number); `None` when the answer does not list them so.
pub fn read_project_versions(body: &Json) -> (r: Option<Vec<(String, String, String)>>)
    ensures
        r is Some <==> project_versions(*body) is Some,
        r matches Some(v) ==> project_versions(*body) == Some(
            v@.map_values(|p: (String, String, String)| (p.0@, p.1@, p.2@)),
        ),
{
    let versions = match body {
        Json::Array(a) => a,
        _ => return None,
    };
    let mut out: Vec<(String, String, String)> = Vec::new();
    for i in 0..versions.len()
        invariant
            *body == Json::Array(*versions),
            out@.len() == i,
            forall|j: int| 0 <= j < i ==> #[trigger] version_entry_readable(versions@[j]),
            forall|j: int|
                0 <= j < i ==> (#[trigger] out@[j]).0@ == str_member(versions@[j], "id"@)
                    && out@[j].1@ == str_member(versions@[j], "version_type"@) && out@[j].2@
                    == str_member(versions@[j], "version_number"@),
    {
        let v = &versions[i];
        let id = match v.get("id") {
            Some(Json::Str(s)) => s.clone(),
            _ => {
                assert(!version_entry_readable(versions@[i as int]));
                return None;
            },
        };
        let version_type = match v.get("version_type") {
            Some(Json::Str(s)) => s.clone(),
            _ => {
                assert(!version_entry_readable(versions@[i as int]));
                return None;
            },
        };
        let version_number = match v.get("version_number") {
            Some(Json::Str(s)) => s.clone(),
            _ => {
                assert(!version_entry_readable(versions@[i as int]));
                return None;
            },
        };
        assert(version_entry_readable(versions@[i as int]));
        out.push((id, version_type, version_number));
    }
    proof {
        let a = versions@;
        assert(a.map_values(
            |v: Json|
                (
                    str_member(v, "id"@),
                    str_member(v, "version_type"@),
                    str_member(v, "version_number"@),
                ),
        ) =~= out@.map_values(|p: (String, String, String)| (p.0@, p.1@, p.2@)));
    }
    Some(out)
}

/// What typing a number in answer to a numbered list (from 1) chooses.
#[derive(PartialEq, Eq, Structural, Clone, Copy, Debug)]
pub enum Pick {
    /// 0: give up.
    Cancel,
    /// The entry at this position (from 0).
    Entry(usize),
    /// A number past the end of the list.
    OutOfRange,
}

/// What typing `index` chooses in a list of `len` entries numbered from 1.
pub fn select_index(index: usize, len: usize) -> (r: Pick)
    ensures
        index == 0 ==> r == Pick::Cancel,
        0 < index <= len ==> r == Pick::Entry((index - 1) as usize),
        index > len ==> r == Pick::OutOfRange,
{
    if index == 0 {
        Pick::Cancel
    } else if index <= len {
        Pick::Entry(index - 1)
    } else {
        Pick::OutOfRange
    }
}

/// The resource a Modrinth search ends with: the project chosen among the
/// hits (title, project ID), at the version chosen among its versions
/// (ID, type, number). Its name is the project's title and its source the
/// version's ID.
pub fn modrinth_search_resource(
    hits: &Vec<(String, String)>,
    hit: usize,
    versions: &Vec<(String, String, String)>,
    version: usize,
) -> (res: Resource)
    requires
        hit < hits@.len(),
        version < versions@.len(),
    ensures
        res.name@ == hits@[hit as int].0@,
        res.source matches Source::Modrinth(f) && f.version_id@ == versions@[version as int].0@,
{
    Resource {
        name: hits[hit].0.clone(),
        source: Source::Modrinth(ModrinthFile { version_id: versions[version].0.clone() }),
    }
}

} // verus!
