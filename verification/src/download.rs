//! Downloading a mod: the name of the file a server sends, and what the
//! Modrinth API says about a version's file.
use vstd::prelude::*;
use crate::json::{parse_json, spec_parse_json, Json};
use crate::number::{decimal, u64_to_decimal, written_nat};
use crate::text::{chars_contain, chars_occur_at, chars_of, contains, occurs_at, push_char, string_of};

verus! {

/// The first place where `pat` occurs in `hay`.
pub open spec fn first_occurrence(hay: Seq<char>, pat: Seq<char>) -> int {
    choose|i: int| occurs_at(hay, pat, i) && forall|j: int| 0 <= j < i ==> !occurs_at(hay, pat, j)
}

/// The second piece of `hay` split at `pat`, as `split(pat).nth(1)` gives
/// it: what follows the first occurrence of `pat`, up to the next one.
/// Only meaningful when `pat` occurs in `hay`.
pub open spec fn second_piece(hay: Seq<char>, pat: Seq<char>) -> Seq<char> {
    let after = hay.skip(first_occurrence(hay, pat) + pat.len());
    if contains(after, pat) {
        after.take(first_occurrence(after, pat))
    } else {
        after
    }
}

/// `s` without the '"' characters it begins with.
pub open spec fn strip_leading_quotes(s: Seq<char>) -> Seq<char>
    decreases s.len(),
{
    if s.len() > 0 && s[0] == '"' {
        strip_leading_quotes(s.drop_first())
    } else {
        s
    }
}

/// `s` without the '"' characters it ends with.
pub open spec fn strip_trailing_quotes(s: Seq<char>) -> Seq<char>
    decreases s.len(),
{
    if s.len() > 0 && s.last() == '"' {
        strip_trailing_quotes(s.drop_last())
    } else {
        s
    }
}

/// `s` without the '"' characters at either end, as `trim_matches('"')`.
pub open spec fn trim_quotes(s: Seq<char>) -> Seq<char> {
    strip_trailing_quotes(strip_leading_quotes(s))
}

/// The last segment of a URL path: what follows its last '/'.
pub open spec fn last_segment(p: Seq<char>) -> Seq<char>
    decreases p.len(),
{
    if p.len() == 0 {
        p
    } else if p.last() == '/' {
        Seq::empty()
    } else {
        last_segment(p.drop_last()).push(p.last())
    }
}

/// The name under which a downloaded file is saved: the `filename=` of the
/// `Content-Disposition` header when it has one, without quotes; else the
/// last segment of the URL's path. `None` when neither is there.
pub open spec fn spec_file_name(disposition: Option<Seq<char>>, url_path: Option<Seq<char>>) -> Option<
    Seq<char>,
> {
    let from_header = match disposition {
        Some(d) => if contains(d, "filename="@) {
            Some(trim_quotes(second_piece(d, "filename="@)))
        } else {
            None
        },
        None => None,
    };
    match from_header {
        Some(n) => Some(n),
        None => match url_path {
            Some(p) => Some(last_segment(p)),
            None => None,
        },
    }
}

proof fn lemma_first_occurrence(hay: Seq<char>, pat: Seq<char>, i: int)
    requires
        occurs_at(hay, pat, i),
        forall|j: int| 0 <= j < i ==> !occurs_at(hay, pat, j),
    ensures
        first_occurrence(hay, pat) == i,
{
    let k = first_occurrence(hay, pat);
    assert(occurs_at(hay, pat, k) && forall|j: int| 0 <= j < k ==> !occurs_at(hay, pat, j));
    if k < i {
        assert(!occurs_at(hay, pat, k));
    }
    if i < k {
        assert(!occurs_at(hay, pat, i));
    }
}

/// Where `pat` first occurs in `hay`, when it does.
fn find_first(hay: &Vec<char>, pat: &Vec<char>) -> (r: Option<usize>)
    ensures
        r is Some <==> contains(hay@, pat@),
        r matches Some(i) ==> i == first_occurrence(hay@, pat@) && occurs_at(hay@, pat@, i as int),
{
    if !chars_contain(hay, pat) {
        return None;
    }
    if pat.len() == 0 {
        assert(hay@.subrange(0, 0) =~= pat@);
        proof {
            lemma_first_occurrence(hay@, pat@, 0);
        }
        return Some(0);
    }
    let n = hay.len();
    for i in 0..n
        invariant
            n == hay@.len(),
            contains(hay@, pat@),
            forall|j: int| 0 <= j < i ==> !occurs_at(hay@, pat@, j),
    {
        if chars_occur_at(hay, pat, i) {
            proof {
                lemma_first_occurrence(hay@, pat@, i as int);
            }
            return Some(i);
        }
    }
    proof {
        let w = choose|w: int| occurs_at(hay@, pat@, w);
        assert(occurs_at(hay@, pat@, w));
        assert(!occurs_at(hay@, pat@, w));
    }
    None
}

/// The characters `v[from..]`.
fn tail_from(v: &Vec<char>, from: usize) -> (r: Vec<char>)
    requires
        from <= v@.len(),
    ensures
        r@ == v@.skip(from as int),
{
    let mut r: Vec<char> = Vec::new();
    let n = v.len();
    for i in from..n
        invariant
            n == v@.len(),
            from <= n,
            r@ == v@.subrange(from as int, i as int),
    {
        r.push(v[i]);
        assert(v@.subrange(from as int, i + 1) =~= v@.subrange(from as int, i as int).push(v@[i as int]));
    }
    assert(v@.skip(from as int) =~= v@.subrange(from as int, n as int));
    r
}

proof fn lemma_strip_leading(s: Seq<char>, k: int)
    requires
        0 <= k <= s.len(),
        forall|j: int| 0 <= j < k ==> s[j] == '"',
        k == s.len() || s[k] != '"',
    ensures
        strip_leading_quotes(s) == s.skip(k),
    decreases k,
{
    if k > 0 {
        lemma_strip_leading(s.drop_first(), k - 1);
        assert(s.drop_first().skip(k - 1) =~= s.skip(k));
    } else {
        assert(s.skip(0) =~= s);
    }
}

proof fn lemma_strip_trailing(s: Seq<char>, k: int)
    requires
        0 <= k <= s.len(),
        forall|j: int| k <= j < s.len() ==> s[j] == '"',
        k == 0 || s[k - 1] != '"',
    ensures
        strip_trailing_quotes(s) == s.take(k),
    decreases s.len() - k,
{
    if k < s.len() {
        lemma_strip_trailing(s.drop_last(), k);
        assert(s.drop_last().take(k) =~= s.take(k));
    } else {
        assert(s.take(k) =~= s);
    }
}

/// `v[from..to]` without the '"' characters at either end.
fn trimmed(v: &Vec<char>, from: usize, to: usize) -> (r: String)
    requires
        from <= to <= v@.len(),
    ensures
        r@ == trim_quotes(v@.subrange(from as int, to as int)),
{
    let ghost s = v@.subrange(from as int, to as int);
    let mut a = from;
    while a < to && v[a] == '"'
        invariant
            from <= a <= to,
            to <= v@.len(),
            s == v@.subrange(from as int, to as int),
            forall|j: int| 0 <= j < a - from ==> s[j] == '"',
        decreases to - a,
    {
        a = a + 1;
    }
    proof {
        lemma_strip_leading(s, a - from);
    }
    let ghost s1 = s.skip(a - from);
    assert(s1 =~= v@.subrange(a as int, to as int));
    let mut b = to;
    while b > a && v[b - 1] == '"'
        invariant
            a <= b <= to,
            to <= v@.len(),
            s1 == v@.subrange(a as int, to as int),
            forall|j: int| b - a <= j < s1.len() ==> s1[j] == '"',
        decreases b,
    {
        b = b - 1;
    }
    proof {
        lemma_strip_trailing(s1, b - a);
        assert(s1.take(b - a) =~= v@.subrange(a as int, b as int));
    }
    string_of(v, a, b)
}

/// The last segment of the URL path `p`.
fn path_last_segment(p: &str) -> (r: String)
    ensures
        r@ == last_segment(p@),
{
    let cs = chars_of(p);
    let mut seg = String::new();
    for i in 0..cs.len()
        invariant
            cs@ == p@,
            seg@ == last_segment(p@.take(i as int)),
    {
        let c = cs[i];
        assert(p@.take(i + 1).drop_last() =~= p@.take(i as int));
        if c == '/' {
            seg = String::new();
        } else {
            push_char(&mut seg, c);
        }
    }
    assert(p@.take(cs.len() as int) =~= p@);
    seg
}

/// The file name given by a `Content-Disposition` header: what follows its
/// first `filename=` (up to any second one), without quotes.
#[verifier::rlimit(40)]
pub fn file_name_from_header(d: &str) -> (r: Option<String>)
    ensures
        r is Some <==> contains(d@, "filename="@),
        r matches Some(n) ==> n@ == trim_quotes(second_piece(d@, "filename="@)),
{
    let hay = chars_of(d);
    let pat = chars_of("filename=");
    match find_first(&hay, &pat) {
        Some(i) => {
            let hl = hay.len();
            assert(i + pat@.len() <= hl);
            let start = i + pat.len();
            let after = tail_from(&hay, start);
            let end = match find_first(&after, &pat) {
                Some(j) => j,
                None => after.len(),
            };
            let ghost piece = after@.take(end as int);
            proof {
                assert(pat@ == "filename="@);
                assert(after@ == d@.skip(first_occurrence(d@, pat@) + pat@.len()));
                if !contains(after@, pat@) {
                    assert(after@.take(after@.len() as int) =~= after@);
                }
                assert(piece == second_piece(d@, "filename="@));
                assert(after@.subrange(0, end as int) =~= piece);
            }
            let name = trimmed(&after, 0, end);
            assert(name@ == trim_quotes(piece));
            Some(name)
        },
        None => None,
    }
}

/// The view of an optional string.
pub open spec fn opt_view(o: Option<&str>) -> Option<Seq<char>> {
    match o {
        Some(s) => Some(s@),
        None => None,
    }
}

/// The name under which a downloaded file is saved, from the
/// `Content-Disposition` header of the response (when it has one that is
/// text) and the path of its URL (when the URL has one). `None` when
/// neither gives a name.
pub fn prase_filename(content_disposition: Option<&str>, url_path: Option<&str>) -> (r: Option<
    String,
>)
    ensures
        r is Some <==> spec_file_name(opt_view(content_disposition), opt_view(url_path)) is Some,
        r matches Some(name) ==> Some(name@) == spec_file_name(
            opt_view(content_disposition),
            opt_view(url_path),
        ),
{
    if let Some(d) = content_disposition {
        if let Some(name) = file_name_from_header(d) {
            return Some(name);
        }
    }
    match url_path {
        Some(p) => Some(path_last_segment(p)),
        None => None,
    }
}

/// The first file listed in a Modrinth version: `files[0]`.
pub open spec fn first_file(version: Json) -> Option<Json> {
    match version.member("files"@) {
        Some(Json::Array(a)) => if a@.len() > 0 {
            Some(a@[0])
        } else {
            None
        },
        _ => None,
    }
}

/// Whether a member of a JSON value is a string.
pub open spec fn has_str(j: Json, key: Seq<char>) -> bool {
    j.member(key) matches Some(Json::Str(_))
}

/// The text of a member that is a string.
pub open spec fn str_member(j: Json, key: Seq<char>) -> Seq<char> {
    match j.member(key) {
        Some(Json::Str(s)) => s@,
        _ => Seq::empty(),
    }
}

/// Whether a Modrinth version names its first file fully: a `url` and a
/// `filename` that are strings and a `size` that is a whole number that
/// fits in a `u64`.
pub open spec fn version_file_readable(version: Json) -> bool {
    first_file(version) matches Some(f) && has_str(f, "url"@) && has_str(f, "filename"@) && (f.member(
        "size"@,
    ) matches Some(z) && z.is_u64())
}

/// The size of a readable Modrinth version's first file.
pub open spec fn file_size(version: Json) -> int {
    match first_file(version)->0.member("size"@) {
        Some(Json::Number(t)) => written_nat(t@)->0,
        _ => 0,
    }
}

/// Of the files that a Modrinth version lists, only the first counts: the
/// version is readable exactly when `files[0]` has a string `url`, a string
/// `filename` and a `size` that fits in a `u64`, and its URL, file name and
/// size are then those of `files[0]`, whatever the other files hold.
pub proof fn lemma_first_file_counts(version: Json, files: Seq<Json>)
    requires
        version.member("files"@) matches Some(Json::Array(a)) && a@ == files,
        files.len() > 0,
    ensures
        first_file(version) == Some(files[0]),
        version_file_readable(version) <==> (files[0].member("url"@) matches Some(Json::Str(_))
            && files[0].member("filename"@) matches Some(Json::Str(_)) && (files[0].member(
            "size"@,
        ) matches Some(z) && z.is_u64())),
        version_file_readable(version) ==> (files[0].member("url"@) matches Some(Json::Str(u))
            && str_member(first_file(version)->0, "url"@) == u@),
        version_file_readable(version) ==> (files[0].member("filename"@) matches Some(
            Json::Str(n),
        ) && str_member(first_file(version)->0, "filename"@) == n@),
        version_file_readable(version) ==> (files[0].member("size"@) matches Some(
            Json::Number(t),
        ) && written_nat(t@) == Some(file_size(version))),
{
}

/// Whether `version` can be read by `modrinth_file_info`.
pub fn check_modrinth_version(version: &Json) -> (r: bool)
    ensures
        r == version_file_readable(*version),
{
    let files = match version.get("files") {
        Some(Json::Array(a)) => a,
        _ => return false,
    };
    if files.len() == 0 {
        return false;
    }
    let f = &files[0];
    let url_ok = match f.get("url") {
        Some(Json::Str(_)) => true,
        _ => false,
    };
    let name_ok = match f.get("filename") {
        Some(Json::Str(_)) => true,
        _ => false,
    };
    let size_ok = match f.get("size") {
        Some(z) => z.as_u64().is_some(),
        None => false,
    };
    url_ok && name_ok && size_ok
}

/// The URL, the file name and the size in bytes of the first file of a
/// Modrinth version, as the API describes it.
pub fn modrinth_file_info(version: &Json) -> (r: (String, String, u64))
    requires
        version_file_readable(*version),
    ensures
        r.0@ == str_member(first_file(*version)->0, "url"@),
        r.1@ == str_member(first_file(*version)->0, "filename"@),
        r.2 == file_size(*version),
{
    let files = match version.get("files") {
        Some(Json::Array(a)) => a,
        _ => {
            assert(false);
            return (String::new(), String::new(), 0);
        },
    };
    let f = &files[0];
    let url = match f.get("url") {
        Some(Json::Str(s)) => s.clone(),
        _ => String::new(),
    };
    let name = match f.get("filename") {
        Some(Json::Str(s)) => s.clone(),
        _ => String::new(),
    };
    let size = match f.get("size") {
        Some(z) => match z.as_u64() {
            Some(v) => v,
            None => 0,
        },
        None => 0,
    };
    (url, name, size)
}

/// The URL, the file name and the size in bytes of the first file of the
/// version that the Modrinth API describes in `answer`; `None` when the
/// answer is not JSON or does not describe that file fully.
pub fn modrinth_version_file(answer: &str) -> (r: Option<(String, String, u64)>)
    ensures
        r is Some <==> (spec_parse_json(answer@) matches Some(v) && version_file_readable(v)),
        r matches Some(info) ==> ({
            let v = spec_parse_json(answer@)->0;
            &&& info.0@ == str_member(first_file(v)->0, "url"@)
            &&& info.1@ == str_member(first_file(v)->0, "filename"@)
            &&& info.2 == file_size(v)
        }),
{
    match parse_json(answer) {
        Some(version) => {
            if check_modrinth_version(&version) {
                Some(modrinth_file_info(&version))
            } else {
                None
            }
        },
        None => None,
    }
}

/// The address of the Modrinth API that describes the version `version_id`.
pub fn modrinth_version_url(version_id: &str) -> (r: String)
    ensures
        r@ == "https://api.modrinth.com/v2/version/"@ + version_id@,
{
    String::from_str("https://api.modrinth.com/v2/version/").concat(version_id)
}

/// The value of the `Range` header that asks for the bytes `start` to
/// `end`: `bytes=start-end`.
pub fn range_header(start: u64, end: u64) -> (r: String)
    ensures
        r@ == "bytes="@ + decimal(start as nat) + "-"@ + decimal(end as nat),
{
    let a = u64_to_decimal(start);
    let b = u64_to_decimal(end);
    String::from_str("bytes=").concat(a.as_str()).concat("-").concat(b.as_str())
}

} // verus!
