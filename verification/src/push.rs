//! Pushing a profile to the pinned game instance: which files of the
//! instance survive the clean-up, which files describe mods to install,
//! and how a download is cut into byte ranges.
use vstd::prelude::*;
use crate::resource::{ModrinthFile, Resource, Source, UrlFile};
use crate::text::{contains, ends_with, occurs_at, str_contains, str_ends_with};

verus! {

/// What a game instance keeps of its own when a profile is pushed to it:
/// files and folders whose name contains one of these.
pub open spec fn keep_in_push() -> Seq<Seq<char>> {
    seq![
        "usernamecache.json"@,
        "options.txt"@,
        "usercache.json"@,
        "resourcepacks"@,
        "saves"@,
        "schematics"@,
        "screenshots"@,
        "logs"@,
        "backups"@,
        "PCL"@,
        "xaero"@,
    ]
}

/// Whether the entry `file_name` of a game instance survives the clean-up
/// before a push: its name contains the modpack's name or one of the names
/// the instance keeps.
pub open spec fn kept_in_push(file_name: Seq<char>, modpack_name: Seq<char>) -> bool {
    contains(file_name, modpack_name) || exists|k: int|
        0 <= k < keep_in_push().len() && contains(file_name, #[trigger] keep_in_push()[k])
}

/// The names that a game instance keeps when a profile is pushed to it.
pub fn keep_in_push_names() -> (r: Vec<&'static str>)
    ensures
        r@.len() == keep_in_push().len(),
        forall|k: int| 0 <= k < r@.len() ==> (#[trigger] r@[k])@ == keep_in_push()[k],
{
    vec![
        "usernamecache.json",
        "options.txt",
        "usercache.json",
        "resourcepacks",
        "saves",
        "schematics",
        "screenshots",
        "logs",
        "backups",
        "PCL",
        "xaero",
    ]
}

/// Whether the entry `file_name` of the game instance is kept when a
/// profile of the modpack `modpack_name` is pushed; every other entry is
/// removed.
pub fn should_keep_in_push(file_name: &str, modpack_name: &str) -> (r: bool)
    ensures
        r == kept_in_push(file_name@, modpack_name@),
{
    if str_contains(file_name, modpack_name) {
        return true;
    }
    let keep = keep_in_push_names();
    let n = keep.len();
    for k in 0..n
        invariant
            n == keep@.len(),
            keep@.len() == keep_in_push().len(),
            forall|j: int| 0 <= j < keep@.len() ==> (#[trigger] keep@[j])@ == keep_in_push()[j],
            forall|j: int| 0 <= j < k ==> !contains(file_name@, #[trigger] keep_in_push()[j]),
    {
        if str_contains(file_name, keep[k]) {
            assert(contains(file_name@, keep_in_push()[k as int]));
            return true;
        }
    }
    false
}

/// An entry survives the clean-up exactly when its name contains the
/// modpack's name or one of "usernamecache.json", "options.txt",
/// "usercache.json", "resourcepacks", "saves", "schematics", "screenshots",
/// "logs", "backups", "PCL" and "xaero"; in particular each of these names
/// is itself kept.
pub proof fn lemma_kept_names(file_name: Seq<char>, modpack_name: Seq<char>)
    ensures
        kept_in_push(file_name, modpack_name) <==> (contains(file_name, modpack_name)
            || contains(file_name, "usernamecache.json"@) || contains(file_name, "options.txt"@)
            || contains(file_name, "usercache.json"@) || contains(file_name, "resourcepacks"@)
            || contains(file_name, "saves"@) || contains(file_name, "schematics"@)
            || contains(file_name, "screenshots"@) || contains(file_name, "logs"@)
            || contains(file_name, "backups"@) || contains(file_name, "PCL"@)
            || contains(file_name, "xaero"@)),
        file_name == "usernamecache.json"@ || file_name == "options.txt"@ || file_name
            == "usercache.json"@ || file_name == "resourcepacks"@ || file_name == "saves"@
            || file_name == "schematics"@ || file_name == "screenshots"@ || file_name == "logs"@
            || file_name == "backups"@ || file_name == "PCL"@ || file_name == "xaero"@
            ==> kept_in_push(file_name, modpack_name),
{
    let keep = keep_in_push();
    assert(keep[0] == "usernamecache.json"@);
    assert(keep[1] == "options.txt"@);
    assert(keep[2] == "usercache.json"@);
    assert(keep[3] == "resourcepacks"@);
    assert(keep[4] == "saves"@);
    assert(keep[5] == "schematics"@);
    assert(keep[6] == "screenshots"@);
    assert(keep[7] == "logs"@);
    assert(keep[8] == "backups"@);
    assert(keep[9] == "PCL"@);
    assert(keep[10] == "xaero"@);
    assert(keep.len() == 11);
    if exists|k: int| 0 <= k < keep.len() && contains(file_name, #[trigger] keep[k]) {
        let k = choose|k: int| 0 <= k < keep.len() && contains(file_name, #[trigger] keep[k]);
        assert(0 <= k < 11);
    }
    assert(file_name.subrange(0, file_name.len() as int) =~= file_name);
    assert(occurs_at(file_name, file_name, 0));
    assert(contains(file_name, file_name));
}

/// Whether an entry of the instance's `mods` folder describes a mod to
/// install: a file whose name ends with ".toml".
pub fn is_mod_descriptor(file_name: &str, is_file: bool) -> (r: bool)
    ensures
        r == (is_file && ends_with(file_name@, ".toml"@)),
{
    is_file && str_ends_with(file_name, ".toml")
}

/// Where a mod is downloaded from when a profile is pushed: its URL, or its
/// Modrinth version. Mods from Curseforge cannot be downloaded yet; for
/// them this is `None`.
pub fn install_source(resource: &Resource) -> (r: Option<Source>)
    ensures
        r is Some <==> !(resource.source is Curseforge),
        resource.source matches Source::Url(f) ==> (r matches Some(Source::Url(g)) && g.url@
            == f.url@),
        resource.source matches Source::Modrinth(f) ==> (r matches Some(Source::Modrinth(g))
            && g.version_id@ == f.version_id@),
{
    match &resource.source {
        Source::Url(f) => Some(Source::Url(UrlFile { url: f.url.clone() })),
        Source::Modrinth(f) => Some(
            Source::Modrinth(ModrinthFile { version_id: f.version_id.clone() }),
        ),
        Source::Curseforge(_) => None,
    }
}

/// The first byte of the `i`-th of `threads` parts of a download of
/// `total` bytes.
pub open spec fn chunk_start(total: int, threads: int, i: int) -> int {
    i * (total / threads)
}

/// The last byte asked for in the `i`-th part: the byte before the next
/// part, and `total` for the last part.
pub open spec fn chunk_end(total: int, threads: int, i: int) -> int {
    if i == threads - 1 {
        total
    } else {
        (i + 1) * (total / threads) - 1
    }
}

proof fn lemma_chunk_bounds(total: int, threads: int, i: int)
    requires
        threads > 0,
        total >= 0,
        0 <= i < threads,
    ensures
        0 <= i * (total / threads) <= total,
        0 <= (i + 1) * (total / threads) <= total,
{
    let c = total / threads;
    assert(0 <= c) by (nonlinear_arith)
        requires
            threads > 0,
            total >= 0,
            c == total / threads,
    ;
    assert(threads * c <= total) by (nonlinear_arith)
        requires
            threads > 0,
            c == total / threads,
    ;
    assert(0 <= i * c <= threads * c) by (nonlinear_arith)
        requires
            0 <= i < threads,
            c >= 0,
    ;
    assert(0 <= (i + 1) * c <= threads * c) by (nonlinear_arith)
        requires
            0 <= i < threads,
            c >= 0,
    ;
}

/// The byte ranges in which a download of `total_size` bytes is asked for
/// with `threads` requests: `threads` ranges of `total_size / threads`
/// bytes, the last one running to `total_size`.
pub fn chunk_ranges(total_size: u64, threads: usize) -> (r: Vec<(u64, u64)>)
    requires
        threads > 0,
        threads == 1 || total_size >= threads,
    ensures
        r@.len() == threads,
        forall|i: int|
            0 <= i < threads ==> (#[trigger] r@[i]).0 == chunk_start(
                total_size as int,
                threads as int,
                i,
            ) && r@[i].1 == chunk_end(total_size as int, threads as int, i),
{
    let t = threads as u64;
    let chunk_size = total_size / t;
    proof {
        assert(chunk_size >= 1 || threads == 1) by (nonlinear_arith)
            requires
                t == threads,
                threads > 0,
                threads == 1 || total_size >= threads,
                chunk_size == total_size / t,
        ;
    }
    let mut ranges: Vec<(u64, u64)> = Vec::new();
    for i in 0..threads
        invariant
            threads > 0,
            t == threads,
            chunk_size == total_size / t,
            chunk_size >= 1 || threads == 1,
            ranges@.len() == i,
            forall|j: int|
                0 <= j < i ==> (#[trigger] ranges@[j]).0 == chunk_start(
                    total_size as int,
                    threads as int,
                    j,
                ) && ranges@[j].1 == chunk_end(total_size as int, threads as int, j),
    {
        proof {
            lemma_chunk_bounds(total_size as int, threads as int, i as int);
        }
        let start = i as u64 * chunk_size;
        let end = if i == threads - 1 {
            total_size
        } else {
            assert((i + 1) * chunk_size >= 1) by (nonlinear_arith)
                requires
                    chunk_size >= 1,
                    i + 1 >= 1,
            ;
            (i + 1) as u64 * chunk_size - 1
        };
        ranges.push((start, end));
    }
    ranges
}

/// The parts of a download are contiguous and cover every byte: the first
/// starts at 0, each other starts right after the one before it ends, and
/// the last ends at the download's size.
pub proof fn lemma_chunks_cover(total: int, threads: int)
    requires
        threads > 0,
        total >= 0,
    ensures
        chunk_start(total, threads, 0) == 0,
        chunk_end(total, threads, threads - 1) == total,
        forall|i: int|
            0 <= i < threads - 1 ==> #[trigger] chunk_start(total, threads, i + 1) == chunk_end(
                total,
                threads,
                i,
            ) + 1,
{
    assert forall|i: int| 0 <= i < threads - 1 implies #[trigger] chunk_start(
        total,
        threads,
        i + 1,
    ) == chunk_end(total, threads, i) + 1 by {}
}

/// How deep `copy_dir` may go into nested folders.
pub open spec fn max_copy_depth() -> int {
    200
}

/// The depth at which to copy the folders inside a folder copied at depth
/// `count`; `None` when `count` is already too deep, which stops the copy.
pub fn next_copy_depth(count: i32) -> (r: Option<i32>)
    ensures
        r is Some <==> count < max_copy_depth(),
        r matches Some(d) ==> d == count + 1,
{
    if count >= 200 {
        None
    } else {
        Some(count + 1)
    }
}

/// Whether a download has the size the Modrinth API gave for the file.
pub fn download_size_ok(got: u64, expected: u64) -> (r: bool)
    ensures
        r == (got == expected),
{
    got == expected
}

} // verus!
