//! Mod resources: where a mod comes from, and how a resource is written on
//! the command line (`%field%field%field`).
use vstd::prelude::*;
use crate::modpack::ModPack;
use crate::text::{chars_of, push_char, string_of};

verus! {

/// A mod of the modpack and where to get it.
pub struct Resource {
    pub name: String,
    pub source: Source,
}

/// The source of a resource.
pub enum Source {
    Curseforge(CurseforgeFile),
    Modrinth(ModrinthFile),
    Url(UrlFile),
}

/// A file on Curseforge.
pub struct CurseforgeFile {
    pub project_id: String,
    pub file_id: String,
}

/// A version of a project on Modrinth.
pub struct ModrinthFile {
    pub version_id: String,
}

/// A file to download from a URL.
pub struct UrlFile {
    pub url: String,
}

/// The byte of the field separator '%'.
pub open spec fn pct() -> u8 {
    37u8
}

/// The index of the first '%' in `s`, or `s.len()` when there is none.
pub open spec fn find_pct(s: Seq<u8>) -> nat
    decreases s.len(),
{
    if s.len() == 0 {
        0
    } else if s[0] == pct() {
        0
    } else {
        1 + find_pct(s.drop_first())
    }
}

/// `s` with every '%' taken out.
pub open spec fn drop_pct(s: Seq<u8>) -> Seq<u8>
    decreases s.len(),
{
    if s.len() == 0 {
        s
    } else if s.last() == pct() {
        drop_pct(s.drop_last())
    } else {
        drop_pct(s.drop_last()).push(s.last())
    }
}

/// Each byte read as the character with the same number.
pub open spec fn latin1(s: Seq<u8>) -> Seq<char> {
    s.map_values(|b: u8| b as char)
}

/// The bytes after the leading one, which is the marker '%'.
pub open spec fn input_tail(b: Seq<u8>) -> Seq<u8> {
    if b.len() == 0 {
        b
    } else {
        b.skip(1)
    }
}

/// Where the first separator of the tail stands (its length when none).
pub open spec fn first_sep(t: Seq<u8>) -> int {
    find_pct(t) as int
}

/// Where the second separator of the tail stands (its length when none).
pub open spec fn second_sep(t: Seq<u8>) -> int {
    let q1 = first_sep(t);
    if q1 < t.len() {
        q1 + 1 + find_pct(t.skip(q1 + 1))
    } else {
        t.len() as int
    }
}

/// The three fields of an input `%first%second%third`, as bytes: the leading
/// byte is skipped; the first field runs to the next '%', the second to the
/// '%' after it, and the third is the rest without any '%'. Fields that the
/// input does not reach are empty.
pub open spec fn split_fields(b: Seq<u8>) -> (Seq<u8>, Seq<u8>, Seq<u8>) {
    let t = input_tail(b);
    let q1 = first_sep(t);
    let q2 = second_sep(t);
    (
        t.take(q1),
        if q1 < t.len() { t.subrange(q1 + 1, q2) } else { Seq::empty() },
        if q2 < t.len() { drop_pct(t.skip(q2 + 1)) } else { Seq::empty() },
    )
}

proof fn lemma_find_pct(s: Seq<u8>)
    ensures
        find_pct(s) <= s.len(),
        forall|j: int| 0 <= j < find_pct(s) ==> s[j] != pct(),
        find_pct(s) < s.len() ==> s[find_pct(s) as int] == pct(),
    decreases s.len(),
{
    if s.len() > 0 && s[0] != pct() {
        lemma_find_pct(s.drop_first());
        assert forall|j: int| 0 <= j < find_pct(s) implies s[j] != pct() by {
            if j > 0 {
                assert(s[j] == s.drop_first()[j - 1]);
            }
        }
    }
}

proof fn lemma_separators(t: Seq<u8>)
    ensures
        0 <= first_sep(t) <= second_sep(t) <= t.len(),
        forall|j: int| 0 <= j < first_sep(t) ==> t[j] != pct(),
        first_sep(t) < t.len() ==> t[first_sep(t)] == pct() && first_sep(t) < second_sep(t),
        forall|j: int| first_sep(t) < j < second_sep(t) ==> t[j] != pct(),
        second_sep(t) < t.len() ==> t[second_sep(t)] == pct(),
{
    lemma_find_pct(t);
    let q1 = first_sep(t);
    if q1 < t.len() {
        let r = t.skip(q1 + 1);
        lemma_find_pct(r);
        assert forall|j: int| q1 < j < second_sep(t) implies t[j] != pct() by {
            assert(t[j] == r[j - q1 - 1]);
        }
        if second_sep(t) < t.len() {
            assert(t[second_sep(t)] == r[second_sep(t) - q1 - 1]);
        }
    }
}

proof fn lemma_drop_pct_push(s: Seq<u8>, c: u8)
    ensures
        drop_pct(s.push(c)) == if c == pct() { drop_pct(s) } else { drop_pct(s).push(c) },
{
    assert(s.push(c).drop_last() =~= s);
}

proof fn lemma_latin1_push(s: Seq<u8>, c: u8)
    ensures
        latin1(s.push(c)) == latin1(s).push(c as char),
{
    assert(latin1(s.push(c)) =~= latin1(s).push(c as char));
}

/// Splits `input_str`, written `%first%second%third`, into its fields and
/// appends them to `first_value`, `second_value` and `third_value`; each
/// byte of a field becomes the character with the same number.
///
/// For Curseforge the fields are project ID, file ID and name; for Modrinth
/// version ID and name; for a URL the URL and name.
pub fn split_input(
    first_value: &mut String,
    second_value: &mut String,
    third_value: &mut String,
    input_str: &String,
)
    ensures
        final(first_value)@ == old(first_value)@ + latin1(split_fields(vstd::utf8::encode_utf8(input_str@)).0),
        final(second_value)@ == old(second_value)@ + latin1(
            split_fields(vstd::utf8::encode_utf8(input_str@)).1,
        ),
        final(third_value)@ == old(third_value)@ + latin1(split_fields(vstd::utf8::encode_utf8(input_str@)).2),
{
    let bytes = input_str.as_str().as_bytes();
    let n = bytes.len();
    if n == 0 {
        proof {
            let b = vstd::utf8::encode_utf8(input_str@);
            assert(b.len() == 0);
            assert(input_tail(b).take(0) =~= Seq::<u8>::empty());
            assert(latin1(Seq::<u8>::empty()) =~= Seq::<char>::empty());
        }
        assert(first_value@ =~= first_value@ + Seq::<char>::empty());
        assert(second_value@ =~= second_value@ + Seq::<char>::empty());
        assert(third_value@ =~= third_value@ + Seq::<char>::empty());
        return;
    }
    let ghost b = bytes@;
    let ghost t = b.skip(1);
    let ghost q1 = first_sep(t);
    let ghost q2 = second_sep(t);
    let ghost f0 = first_value@;
    let ghost s0 = second_value@;
    let ghost h0 = third_value@;
    proof {
        lemma_separators(t);
        assert(latin1(Seq::<u8>::empty()) =~= Seq::<char>::empty());
        assert(t.take(0) =~= Seq::<u8>::empty());
        assert(f0 =~= f0 + Seq::<char>::empty());
        assert(s0 =~= s0 + Seq::<char>::empty());
        assert(h0 =~= h0 + Seq::<char>::empty());
    }
    let mut first = false;
    let mut second = false;
    let mut i: usize = 1;
    while i < n
        invariant
            n == bytes@.len(),
            b == bytes@,
            b == vstd::utf8::encode_utf8(input_str@),
            n >= 1,
            t == b.skip(1),
            q1 == first_sep(t),
            q2 == second_sep(t),
            0 <= q1 <= q2 <= t.len(),
            forall|j: int| 0 <= j < q1 ==> t[j] != pct(),
            q1 < t.len() ==> t[q1] == pct() && q1 < q2,
            forall|j: int| q1 < j < q2 ==> t[j] != pct(),
            q2 < t.len() ==> t[q2] == pct(),
            1 <= i <= n,
            first == (i - 1 > q1),
            second == (i - 1 > q2),
            first_value@ == f0 + latin1(t.take(if i - 1 < q1 { i - 1 } else { q1 })),
            second_value@ == s0 + latin1(
                if i - 1 > q1 {
                    t.subrange(q1 + 1, if i - 1 < q2 { i - 1 } else { q2 })
                } else {
                    Seq::empty()
                },
            ),
            third_value@ == h0 + latin1(
                if i - 1 > q2 {
                    drop_pct(t.subrange(q2 + 1, i - 1))
                } else {
                    Seq::empty()
                },
            ),
        decreases n - i,
    {
        let c = bytes[i];
        let ghost j: int = i - 1;
        assert(c == t[j]);
        if c == 37u8 {
            if first {
                second = true;
            } else {
                first = true;
            }
        } else if first {
            if second {
                push_char(third_value, c as char);
            } else {
                push_char(second_value, c as char);
            }
        } else {
            push_char(first_value, c as char);
        }
        proof {
            if j < q1 {
                assert(t.take(j + 1) =~= t.take(j).push(c));
                lemma_latin1_push(t.take(j), c);
                assert(first_value@ =~= f0 + latin1(t.take(j + 1)));
            } else if j == q1 {
                assert(t.subrange(q1 + 1, q1 + 1) =~= Seq::<u8>::empty());
            } else if j < q2 {
                assert(t.subrange(q1 + 1, j + 1) =~= t.subrange(q1 + 1, j).push(c));
                lemma_latin1_push(t.subrange(q1 + 1, j), c);
                assert(second_value@ =~= s0 + latin1(t.subrange(q1 + 1, j + 1)));
            } else if j == q2 {
                assert(t.subrange(q2 + 1, q2 + 1) =~= Seq::<u8>::empty());
                assert(drop_pct(Seq::<u8>::empty()) =~= Seq::<u8>::empty());
            } else {
                assert(t.subrange(q2 + 1, j + 1) =~= t.subrange(q2 + 1, j).push(c));
                lemma_drop_pct_push(t.subrange(q2 + 1, j), c);
                if c != 37u8 {
                    lemma_latin1_push(drop_pct(t.subrange(q2 + 1, j)), c);
                    assert(third_value@ =~= h0 + latin1(drop_pct(t.subrange(q2 + 1, j + 1))));
                }
            }
        }
        i = i + 1;
    }
    proof {
        assert(input_tail(b) == t);
        let tl = t.len() as int;
        if q1 < tl {
            assert(t.skip(q2 + 1) =~= t.subrange(q2 + 1, tl));
        }
    }
}

/// Whether `s` holds no '%'.
pub open spec fn no_pct(s: Seq<u8>) -> bool {
    forall|j: int| 0 <= j < s.len() ==> s[j] != pct()
}

proof fn lemma_find_pct_prefix(a: Seq<u8>, rest: Seq<u8>)
    requires
        no_pct(a),
    ensures
        find_pct(a + rest) == a.len() + find_pct(rest),
    decreases a.len(),
{
    if a.len() > 0 {
        assert((a + rest).drop_first() =~= a.drop_first() + rest);
        assert((a + rest)[0] == a[0]);
        lemma_find_pct_prefix(a.drop_first(), rest);
    } else {
        assert(a + rest =~= rest);
    }
}

proof fn lemma_drop_pct_none(s: Seq<u8>)
    requires
        no_pct(s),
    ensures
        drop_pct(s) == s,
    decreases s.len(),
{
    if s.len() > 0 {
        lemma_drop_pct_none(s.drop_last());
        assert(s.drop_last().push(s.last()) =~= s);
    }
}

/// Joining three fields that hold no '%' as `%first%second%third` (after
/// any leading byte) and splitting the result gives the three fields back.
pub proof fn lemma_split_three_fields(lead: u8, a: Seq<u8>, b: Seq<u8>, c: Seq<u8>)
    requires
        no_pct(a),
        no_pct(b),
        no_pct(c),
    ensures
        split_fields(seq![lead] + a + seq![pct()] + b + seq![pct()] + c) == (a, b, c),
{
    let input = seq![lead] + a + seq![pct()] + b + seq![pct()] + c;
    let t = input_tail(input);
    let rest1 = seq![pct()] + b + seq![pct()] + c;
    assert(t =~= a + rest1);
    lemma_find_pct_prefix(a, rest1);
    assert(find_pct(rest1) == 0);
    let q1 = a.len() as int;
    assert(first_sep(t) == q1);
    let r = t.skip(q1 + 1);
    let rest2 = seq![pct()] + c;
    assert(r =~= b + rest2);
    lemma_find_pct_prefix(b, rest2);
    assert(find_pct(rest2) == 0);
    let q2 = q1 + 1 + b.len();
    assert(second_sep(t) == q2);
    assert(t.take(q1) =~= a);
    assert(t.subrange(q1 + 1, q2) =~= b);
    assert(t.skip(q2 + 1) =~= c);
    lemma_drop_pct_none(c);
}

/// Joining two fields that hold no '%' as `%first%second` (after any
/// leading byte) and splitting the result gives them back, with an empty
/// third field.
pub proof fn lemma_split_two_fields(lead: u8, a: Seq<u8>, b: Seq<u8>)
    requires
        no_pct(a),
        no_pct(b),
    ensures
        split_fields(seq![lead] + a + seq![pct()] + b) == (a, b, Seq::<u8>::empty()),
{
    let input = seq![lead] + a + seq![pct()] + b;
    let t = input_tail(input);
    let rest1 = seq![pct()] + b;
    assert(t =~= a + rest1);
    lemma_find_pct_prefix(a, rest1);
    assert(find_pct(rest1) == 0);
    let q1 = a.len() as int;
    let r = t.skip(q1 + 1);
    assert(r =~= b + Seq::<u8>::empty());
    lemma_find_pct_prefix(b, Seq::<u8>::empty());
    assert(t.take(q1) =~= a);
    assert(t.subrange(q1 + 1, t.len() as int) =~= b);
}

/// The three fields of an input string, as the characters that
/// `split_input` appends.
pub open spec fn fields_of(s: Seq<char>) -> (Seq<char>, Seq<char>, Seq<char>) {
    let f = split_fields(vstd::utf8::encode_utf8(s));
    (latin1(f.0), latin1(f.1), latin1(f.2))
}

/// Whether a resource is written in the `%field%field` form.
pub open spec fn starts_with_pct(s: Seq<char>) -> bool {
    s.len() > 0 && s[0] == '%'
}

/// Whether `input_str` begins with '%'.
pub fn begins_with_pct(input_str: &String) -> (r: bool)
    ensures
        r == starts_with_pct(input_str@),
{
    let cs = chars_of(input_str.as_str());
    cs.len() > 0 && cs[0] == '%'
}

/// The three fields of `input_str`, split into new strings.
fn split_three(input_str: &String) -> (r: (String, String, String))
    ensures
        r.0@ == fields_of(input_str@).0,
        r.1@ == fields_of(input_str@).1,
        r.2@ == fields_of(input_str@).2,
{
    let mut first = String::new();
    let mut second = String::new();
    let mut third = String::new();
    split_input(&mut first, &mut second, &mut third, input_str);
    assert(first@ =~= fields_of(input_str@).0);
    assert(second@ =~= fields_of(input_str@).1);
    assert(third@ =~= fields_of(input_str@).2);
    (first, second, third)
}

/// A Curseforge resource written `%project_id%file_id%name`. An input
/// without the leading '%' is a name to search Curseforge for, which is not
/// supported yet; it is not accepted here.
pub fn get_from_curseforge(_modpack: &ModPack, input_str: &String) -> (res: Resource)
    requires
        starts_with_pct(input_str@),
    ensures
        res.name@ == fields_of(input_str@).2,
        res.source matches Source::Curseforge(f) && f.project_id@ == fields_of(input_str@).0
            && f.file_id@ == fields_of(input_str@).1,
{
    let (project_id, file_id, name) = split_three(input_str);
    Resource { name, source: Source::Curseforge(CurseforgeFile { project_id, file_id }) }
}

/// The first place of `c` in `s`, or the length of `s` when `c` is not in
/// it.
pub open spec fn find_char(s: Seq<char>, c: char) -> nat
    decreases s.len(),
{
    if s.len() == 0 {
        0
    } else if s[0] == c {
        0
    } else {
        1 + find_char(s.drop_first(), c)
    }
}

proof fn lemma_find_char(s: Seq<char>, c: char)
    ensures
        find_char(s, c) <= s.len(),
        forall|j: int| 0 <= j < find_char(s, c) ==> s[j] != c,
        find_char(s, c) < s.len() ==> s[find_char(s, c) as int] == c,
    decreases s.len(),
{
    if s.len() > 0 && s[0] != c {
        lemma_find_char(s.drop_first(), c);
        assert forall|j: int| 0 <= j < find_char(s, c) implies s[j] != c by {
            if j > 0 {
                assert(s[j] == s.drop_first()[j - 1]);
            }
        }
    }
}

/// The version ID and the name of a Modrinth resource. Written
/// `%version_id&name`, as the help text of `add` describes it, the ID runs
/// to the first '&' and the name is all that follows it. When a '%' comes
/// before any '&', the resource is written `%version_id%name` and these are
/// its first two fields.
pub open spec fn modrinth_fields(s: Seq<char>) -> (Seq<char>, Seq<char>) {
    let t = s.drop_first();
    let a = find_char(t, '&');
    if a < t.len() && a < find_char(t, '%') {
        (t.take(a as int), t.skip(a as int + 1))
    } else {
        (fields_of(s).0, fields_of(s).1)
    }
}

/// A Modrinth resource written `%version_id&name` or `%version_id%name`. An
/// input without the leading '%' is a name to search Modrinth for, which
/// the caller does; it is not accepted here.
pub fn get_from_modrinth(_modpack: &ModPack, input_str: &String) -> (res: Resource)
    requires
        starts_with_pct(input_str@),
    ensures
        res.name@ == modrinth_fields(input_str@).1,
        res.source matches Source::Modrinth(f) && f.version_id@ == modrinth_fields(input_str@).0,
{
    let cs = chars_of(input_str.as_str());
    let n = cs.len();
    let ghost t = input_str@.drop_first();
    proof {
        lemma_find_char(t, '&');
        lemma_find_char(t, '%');
    }
    let mut i: usize = 1;
    while i < n && cs[i] != '&' && cs[i] != '%'
        invariant
            n == cs@.len(),
            cs@ == input_str@,
            1 <= i <= n,
            forall|j: int| 1 <= j < i ==> cs@[j] != '&' && cs@[j] != '%',
        decreases n - i,
    {
        i = i + 1;
    }
    let ghost k = i - 1;
    proof {
        assert(forall|j: int| 0 <= j < t.len() ==> t[j] == cs@[j + 1]);
        let fa = find_char(t, '&') as int;
        let fp = find_char(t, '%') as int;
        if fa < k {
            assert(t[fa] == cs@[fa + 1]);
        }
        if fp < k {
            assert(t[fp] == cs@[fp + 1]);
        }
    }
    if i < n && cs[i] == '&' {
        proof {
            assert(t[k] == '&');
            assert(find_char(t, '&') == k);
            assert(t.take(k) =~= cs@.subrange(1, i as int));
            assert(t.skip(k + 1) =~= cs@.subrange(i + 1, n as int));
        }
        let version_id = string_of(&cs, 1, i);
        let name = string_of(&cs, i + 1, n);
        return Resource { name, source: Source::Modrinth(ModrinthFile { version_id }) };
    }
    proof {
        if i < n {
            assert(t[k] == '%');
            assert(find_char(t, '%') == k);
        }
    }
    let (version_id, name, _) = split_three(input_str);
    Resource { name, source: Source::Modrinth(ModrinthFile { version_id }) }
}

/// A resource at a URL, written `%url%name`; the input must begin with '%'.
pub fn get_from_url(input_str: &String) -> (res: Resource)
    requires
        starts_with_pct(input_str@),
    ensures
        res.name@ == fields_of(input_str@).1,
        res.source matches Source::Url(f) && f.url@ == fields_of(input_str@).0,
{
    let (url, name, _) = split_three(input_str);
    Resource { name, source: Source::Url(UrlFile { url }) }
}

/// `s` with every ':' replaced by a space.
pub open spec fn colons_to_spaces(s: Seq<char>) -> Seq<char> {
    s.map_values(|c: char| if c == ':' { ' ' } else { c })
}

/// The name of the file that describes the mod `name` in a profile's `mods`
/// folder: the name with each ':' replaced by a space, then ".toml".
pub open spec fn spec_mod_file_name(name: Seq<char>) -> Seq<char> {
    colons_to_spaces(name) + ".toml"@
}

/// The file name under which the mod `name` is kept in a profile's `mods`
/// folder.
pub fn mod_file_name(name: &str) -> (r: String)
    ensures
        r@ == spec_mod_file_name(name@),
{
    let cs = chars_of(name);
    let mut res = String::new();
    for i in 0..cs.len()
        invariant
            cs@ == name@,
            res@ == colons_to_spaces(name@.take(i as int)),
    {
        let c = cs[i];
        if c == ':' {
            push_char(&mut res, ' ');
        } else {
            push_char(&mut res, c);
        }
        assert(name@.take(i + 1) =~= name@.take(i as int).push(c));
        assert(colons_to_spaces(name@.take(i + 1)) =~= colons_to_spaces(name@.take(i as int)).push(
            if c == ':' { ' ' } else { c },
        ));
    }
    assert(name@.take(cs.len() as int) =~= name@);
    res.append(".toml");
    res
}

/// Where a mod can be added from.
#[derive(PartialEq, Eq, Structural, Clone, Copy, Debug)]
pub enum SourceKind {
    Curseforge,
    Modrinth,
    Url,
}

/// The source named on the command line: "curseforge" or "c", "modrinth" or
/// "m", "url" or "u".
pub open spec fn source_kind_of(s: Seq<char>) -> Option<SourceKind> {
    if s == "curseforge"@ || s == "c"@ {
        Some(SourceKind::Curseforge)
    } else if s == "modrinth"@ || s == "m"@ {
        Some(SourceKind::Modrinth)
    } else if s == "url"@ || s == "u"@ {
        Some(SourceKind::Url)
    } else {
        None
    }
}

/// The source named by `s`; `None` when `s` names none.
pub fn parse_source_kind(s: &str) -> (r: Option<SourceKind>)
    ensures
        r == source_kind_of(s@),
{
    let s = s.to_owned();
    if s == String::from_str("curseforge") || s == String::from_str("c") {
        Some(SourceKind::Curseforge)
    } else if s == String::from_str("modrinth") || s == String::from_str("m") {
        Some(SourceKind::Modrinth)
    } else if s == String::from_str("url") || s == String::from_str("u") {
        Some(SourceKind::Url)
    } else {
        None
    }
}

/// The pieces of `s` between its '%' bytes, in order, as `split('%')`
/// gives them: one more piece than there are '%'.
pub open spec fn split_pct(s: Seq<u8>) -> Seq<Seq<u8>>
    decreases s.len(),
{
    if find_pct(s) < s.len() {
        seq![s.take(find_pct(s) as int)] + split_pct(s.skip(find_pct(s) as int + 1))
    } else {
        seq![s]
    }
}

/// The pieces joined back together, with nothing between them.
pub open spec fn join_pieces(ss: Seq<Seq<u8>>) -> Seq<u8>
    decreases ss.len(),
{
    if ss.len() == 0 {
        Seq::empty()
    } else {
        ss[0] + join_pieces(ss.drop_first())
    }
}

proof fn lemma_drop_pct_concat(a: Seq<u8>, b: Seq<u8>)
    ensures
        drop_pct(a + b) == drop_pct(a) + drop_pct(b),
    decreases b.len(),
{
    if b.len() == 0 {
        assert(a + b =~= a);
        assert(drop_pct(a) + drop_pct(b) =~= drop_pct(a));
    } else {
        assert((a + b).drop_last() =~= a + b.drop_last());
        assert((a + b).last() == b.last());
        lemma_drop_pct_concat(a, b.drop_last());
        if b.last() != pct() {
            assert(drop_pct(a) + drop_pct(b.drop_last()).push(b.last()) =~= (drop_pct(a)
                + drop_pct(b.drop_last())).push(b.last()));
        }
    }
}

proof fn lemma_split_pct_nonempty(s: Seq<u8>)
    ensures
        split_pct(s).len() >= 1,
{
    let k = find_pct(s) as int;
    if k < s.len() {
        assert(split_pct(s) == seq![s.take(k)] + split_pct(s.skip(k + 1)));
    } else {
        assert(split_pct(s) == seq![s]);
    }
}

proof fn lemma_drop_pct_join(s: Seq<u8>)
    ensures
        drop_pct(s) == join_pieces(split_pct(s)),
    decreases s.len(),
{
    lemma_find_pct(s);
    let k = find_pct(s) as int;
    if k < s.len() {
        let rest = s.skip(k + 1);
        lemma_drop_pct_join(rest);
        let ss = split_pct(s);
        assert(ss == seq![s.take(k)] + split_pct(rest));
        assert(ss[0] == s.take(k));
        assert(ss.drop_first() =~= split_pct(rest));
        assert(s =~= s.take(k) + seq![pct()] + rest);
        lemma_drop_pct_concat(s.take(k) + seq![pct()], rest);
        lemma_drop_pct_concat(s.take(k), seq![pct()]);
        assert(no_pct(s.take(k)));
        lemma_drop_pct_none(s.take(k));
        let one = seq![pct()];
        assert(one.last() == pct());
        assert(one.drop_last() =~= Seq::<u8>::empty());
        assert(drop_pct(Seq::<u8>::empty()) == Seq::<u8>::empty());
        assert(drop_pct(one) == drop_pct(one.drop_last()));
        assert(drop_pct(one) =~= Seq::<u8>::empty());
        assert(s.take(k) + Seq::<u8>::empty() =~= s.take(k));
        assert(drop_pct(s) == drop_pct(s.take(k) + one) + drop_pct(rest));
        assert(drop_pct(s) =~= s.take(k) + drop_pct(rest));
        assert(join_pieces(ss) == ss[0] + join_pieces(ss.drop_first()));
    } else {
        assert(no_pct(s));
        lemma_drop_pct_none(s);
        assert(split_pct(s) == seq![s]);
        assert(seq![s].drop_first() =~= Seq::<Seq<u8>>::empty());
        assert(join_pieces(Seq::<Seq<u8>>::empty()) == Seq::<u8>::empty());
        assert(join_pieces(seq![s]) == seq![s][0] + join_pieces(seq![s].drop_first()));
        assert(s + Seq::<u8>::empty() =~= s);
    }
}

/// The three fields are the pieces that `split('%')` cuts the input into
/// (after its leading byte): the first piece, the second (empty when there
/// is none), and every further piece joined together.
pub proof fn lemma_split_fields_are_split_pieces(b: Seq<u8>)
    ensures
        ({
            let p = split_pct(input_tail(b));
            split_fields(b) == (
                p[0],
                if p.len() > 1 { p[1] } else { Seq::<u8>::empty() },
                if p.len() > 2 { join_pieces(p.skip(2)) } else { Seq::<u8>::empty() },
            )
        }),
{
    let t = input_tail(b);
    lemma_separators(t);
    lemma_find_pct(t);
    let q1 = first_sep(t);
    let q2 = second_sep(t);
    let p = split_pct(t);
    if q1 < t.len() {
        let r = t.skip(q1 + 1);
        lemma_find_pct(r);
        lemma_split_pct_nonempty(r);
        let pr = split_pct(r);
        assert(p =~= seq![t.take(q1)] + pr);
        let q2r = find_pct(r) as int;
        assert(q2 == q1 + 1 + q2r);
        if q2r < r.len() {
            let r2 = r.skip(q2r + 1);
            assert(r2 =~= t.skip(q2 + 1));
            lemma_split_pct_nonempty(r2);
            assert(pr =~= seq![r.take(q2r)] + split_pct(r2));
            assert(r.take(q2r) =~= t.subrange(q1 + 1, q2));
            assert(p.skip(2) =~= split_pct(r2));
            lemma_drop_pct_join(r2);
        } else {
            assert(pr == seq![r]);
            assert(r =~= t.subrange(q1 + 1, q2));
        }
    } else {
        assert(p == seq![t]);
        assert(t.take(q1) =~= t);
    }
}

/// Whether a string holds no '%'.
pub open spec fn no_pct_char(p: Seq<char>) -> bool {
    forall|i: int| 0 <= i < p.len() ==> #[trigger] p[i] != '%'
}

proof fn lemma_encode_concat(a: Seq<char>, b: Seq<char>)
    ensures
        vstd::utf8::encode_utf8(a + b) == vstd::utf8::encode_utf8(a) + vstd::utf8::encode_utf8(b),
    decreases a.len(),
{
    if a.len() == 0 {
        assert(a + b =~= b);
        assert(vstd::utf8::encode_utf8(a) =~= Seq::<u8>::empty());
        assert(Seq::<u8>::empty() + vstd::utf8::encode_utf8(b) =~= vstd::utf8::encode_utf8(b));
    } else {
        assert((a + b).drop_first() =~= a.drop_first() + b);
        assert((a + b)[0] == a[0]);
        lemma_encode_concat(a.drop_first(), b);
        let e0 = vstd::utf8::encode_scalar(a[0] as u32);
        assert(e0 + (vstd::utf8::encode_utf8(a.drop_first()) + vstd::utf8::encode_utf8(b)) =~= (e0
            + vstd::utf8::encode_utf8(a.drop_first())) + vstd::utf8::encode_utf8(b));
    }
}

proof fn lemma_scalar_no_pct(v: u32)
    requires
        vstd::utf8::is_scalar(v),
        v != 37,
    ensures
        no_pct(vstd::utf8::encode_scalar(v)),
{
    let e = vstd::utf8::encode_scalar(v);
    if vstd::utf8::has_width_1_encoding(v) {
        assert(((v & 0x7F) as u8) != 37u8) by (bit_vector)
            requires
                v <= 0x7F,
                v != 37,
        ;
    } else {
        let l2 = ((v >> 6) & 0x1F) as u8;
        let l3 = ((v >> 12) & 0x0F) as u8;
        let l4 = ((v >> 18) & 0x7) as u8;
        let c1 = (v & 0x3F) as u8;
        let c2 = ((v >> 6) & 0x3F) as u8;
        let c3 = ((v >> 12) & 0x3F) as u8;
        assert(0xC0u8 | l2 != 37u8) by (bit_vector);
        assert(0xE0u8 | l3 != 37u8) by (bit_vector);
        assert(0xF0u8 | l4 != 37u8) by (bit_vector);
        assert(0x80u8 | c1 != 37u8) by (bit_vector);
        assert(0x80u8 | c2 != 37u8) by (bit_vector);
        assert(0x80u8 | c3 != 37u8) by (bit_vector);
    }
}

proof fn lemma_encode_no_pct(u: Seq<char>)
    requires
        no_pct_char(u),
    ensures
        no_pct(vstd::utf8::encode_utf8(u)),
    decreases u.len(),
{
    if u.len() > 0 {
        let c = u[0];
        let v = c as u32;
        vstd::utf8::char_is_scalar(c);
        if v == 37 {
            vstd::utf8::char_u32_cast(c, 37u32);
            vstd::utf8::char_u32_cast('%', 37u32);
            assert(c == '%');
        }
        lemma_scalar_no_pct(v);
        assert(no_pct_char(u.drop_first()));
        lemma_encode_no_pct(u.drop_first());
        let e0 = vstd::utf8::encode_scalar(v);
        let rest = vstd::utf8::encode_utf8(u.drop_first());
        assert forall|j: int| 0 <= j < (e0 + rest).len() implies (e0 + rest)[j] != pct() by {
            if j >= e0.len() {
                assert((e0 + rest)[j] == rest[j - e0.len()]);
            }
        }
    }
}

proof fn lemma_encode_pct()
    ensures
        vstd::utf8::encode_utf8(seq!['%']) == seq![pct()],
{
    let v = '%' as u32;
    assert(v == 37);
    assert(((37u32 & 0x7F) as u8) == 37u8) by (bit_vector);
    let one = seq!['%'];
    assert(one[0] == '%');
    assert(one.drop_first() =~= Seq::<char>::empty());
    assert(vstd::utf8::encode_utf8(one.drop_first()) == Seq::<u8>::empty());
    assert(vstd::utf8::has_width_1_encoding(v));
    assert(vstd::utf8::encode_scalar(v) == seq![37u8]);
    assert(vstd::utf8::encode_utf8(one) == vstd::utf8::encode_scalar(v) + vstd::utf8::encode_utf8(
        one.drop_first(),
    ));
    assert(vstd::utf8::encode_utf8(one) =~= seq![pct()]);
}

/// A resource written `%first%second%third`, whose fields hold no '%', has
/// those three fields, each as the characters of its UTF-8 bytes read one
/// by one.
pub proof fn lemma_fields_of_three_any(p: Seq<char>, f: Seq<char>, n: Seq<char>)
    requires
        no_pct_char(p),
        no_pct_char(f),
        no_pct_char(n),
    ensures
        fields_of(seq!['%'] + p + seq!['%'] + f + seq!['%'] + n) == (
            latin1(vstd::utf8::encode_utf8(p)),
            latin1(vstd::utf8::encode_utf8(f)),
            latin1(vstd::utf8::encode_utf8(n)),
        ),
{
    let pc = seq!['%'];
    lemma_encode_pct();
    lemma_encode_concat(pc, p);
    lemma_encode_concat(pc + p, pc);
    lemma_encode_concat(pc + p + pc, f);
    lemma_encode_concat(pc + p + pc + f, pc);
    lemma_encode_concat(pc + p + pc + f + pc, n);
    lemma_encode_no_pct(p);
    lemma_encode_no_pct(f);
    lemma_encode_no_pct(n);
    let ep = vstd::utf8::encode_utf8(p);
    let ef = vstd::utf8::encode_utf8(f);
    let en = vstd::utf8::encode_utf8(n);
    assert(vstd::utf8::encode_utf8(pc + p + pc + f + pc + n) =~= seq![pct()] + ep + seq![pct()]
        + ef + seq![pct()] + en);
    lemma_split_three_fields(pct(), ep, ef, en);
}

/// A resource written `%first%second`, whose fields hold no '%', has those
/// two fields, each as the characters of its UTF-8 bytes read one by one,
/// and an empty third.
pub proof fn lemma_fields_of_two_any(p: Seq<char>, f: Seq<char>)
    requires
        no_pct_char(p),
        no_pct_char(f),
    ensures
        fields_of(seq!['%'] + p + seq!['%'] + f) == (
            latin1(vstd::utf8::encode_utf8(p)),
            latin1(vstd::utf8::encode_utf8(f)),
            Seq::<char>::empty(),
        ),
{
    let pc = seq!['%'];
    lemma_encode_pct();
    lemma_encode_concat(pc, p);
    lemma_encode_concat(pc + p, pc);
    lemma_encode_concat(pc + p + pc, f);
    lemma_encode_no_pct(p);
    lemma_encode_no_pct(f);
    let ep = vstd::utf8::encode_utf8(p);
    let ef = vstd::utf8::encode_utf8(f);
    assert(vstd::utf8::encode_utf8(pc + p + pc + f) =~= seq![pct()] + ep + seq![pct()] + ef);
    lemma_split_two_fields(pct(), ep, ef);
    assert(latin1(Seq::<u8>::empty()) =~= Seq::<char>::empty());
}

/// A field as the help text asks for it: ASCII characters, none of them '%'.
pub open spec fn plain_field(p: Seq<char>) -> bool {
    vstd::utf8::is_ascii_chars(p) && forall|i: int| 0 <= i < p.len() ==> #[trigger] p[i] != '%'
}

/// The bytes of an ASCII string.
pub open spec fn ascii_bytes(p: Seq<char>) -> Seq<u8> {
    p.map_values(|c: char| c as u8)
}

proof fn lemma_ascii_char_byte(c: char)
    requires
        c <= '\u{7f}',
    ensures
        c as u8 == c as u32,
        (c as u8) as char == c,
{
    let u = c as u32;
    assert(u < 128);
    assert((u as u8) as u32 == u) by (bit_vector)
        requires
            u < 128,
    ;
    assert(c as u8 == u as u8);
    vstd::utf8::char_u32_cast(c, u);
    assert(((c as u8) as u32) as char == c);
}

proof fn lemma_plain_field_bytes(p: Seq<char>)
    requires
        plain_field(p),
    ensures
        no_pct(ascii_bytes(p)),
        latin1(ascii_bytes(p)) == p,
{
    assert forall|j: int| 0 <= j < ascii_bytes(p).len() implies ascii_bytes(p)[j] != pct() by {
        lemma_ascii_char_byte(p[j]);
    }
    assert forall|j: int| 0 <= j < p.len() implies latin1(ascii_bytes(p))[j] == p[j] by {
        lemma_ascii_char_byte(p[j]);
    }
    assert(latin1(ascii_bytes(p)) =~= p);
}

proof fn lemma_ascii_encoding(s: Seq<char>)
    requires
        vstd::utf8::is_ascii_chars(s),
    ensures
        vstd::utf8::encode_utf8(s) == ascii_bytes(s),
{
    vstd::utf8::is_ascii_chars_encode_utf8(s);
    assert(vstd::utf8::encode_utf8(s) =~= ascii_bytes(s));
}

/// A Curseforge resource written as the help text describes it,
/// `%project_id%file_id%name` with ASCII fields that hold no '%', has
/// those three fields.
pub proof fn lemma_fields_of_three(p: Seq<char>, f: Seq<char>, n: Seq<char>)
    requires
        plain_field(p),
        plain_field(f),
        plain_field(n),
    ensures
        fields_of(seq!['%'] + p + seq!['%'] + f + seq!['%'] + n) == (p, f, n),
{
    let s = seq!['%'] + p + seq!['%'] + f + seq!['%'] + n;
    assert(vstd::utf8::is_ascii_chars(s)) by {
        assert forall|i: int| 0 <= i < s.len() implies '\0' <= #[trigger] s[i] <= '\u{7f}' by {
            if i >= 1 && i < 1 + p.len() {
                assert(s[i] == p[i - 1]);
            } else if i >= 2 + p.len() && i < 2 + p.len() + f.len() {
                assert(s[i] == f[i - 2 - p.len()]);
            } else if i >= 3 + p.len() + f.len() {
                assert(s[i] == n[i - 3 - p.len() - f.len()]);
            } else {
                assert(s[i] == '%');
            }
        }
    }
    lemma_ascii_encoding(s);
    let pb = ascii_bytes(p);
    let fb = ascii_bytes(f);
    let nb = ascii_bytes(n);
    assert('%' as u8 == pct());
    assert(ascii_bytes(s) =~= seq![pct()] + pb + seq![pct()] + fb + seq![pct()] + nb);
    lemma_plain_field_bytes(p);
    lemma_plain_field_bytes(f);
    lemma_plain_field_bytes(n);
    lemma_split_three_fields(pct(), pb, fb, nb);
}

/// A Modrinth or URL resource written as the help text describes it,
/// `%first%name` with ASCII fields that hold no '%', has those two fields
/// and an empty third.
pub proof fn lemma_fields_of_two(p: Seq<char>, f: Seq<char>)
    requires
        plain_field(p),
        plain_field(f),
    ensures
        fields_of(seq!['%'] + p + seq!['%'] + f) == (p, f, Seq::<char>::empty()),
{
    let s = seq!['%'] + p + seq!['%'] + f;
    assert(vstd::utf8::is_ascii_chars(s)) by {
        assert forall|i: int| 0 <= i < s.len() implies '\0' <= #[trigger] s[i] <= '\u{7f}' by {
            if i >= 1 && i < 1 + p.len() {
                assert(s[i] == p[i - 1]);
            } else if i >= 2 + p.len() {
                assert(s[i] == f[i - 2 - p.len()]);
            } else {
                assert(s[i] == '%');
            }
        }
    }
    lemma_ascii_encoding(s);
    let pb = ascii_bytes(p);
    let fb = ascii_bytes(f);
    assert('%' as u8 == pct());
    assert(ascii_bytes(s) =~= seq![pct()] + pb + seq![pct()] + fb);
    lemma_plain_field_bytes(p);
    lemma_plain_field_bytes(f);
    lemma_split_two_fields(pct(), pb, fb);
    assert(latin1(Seq::<u8>::empty()) =~= Seq::<char>::empty());
}

/// The file of a mod does not change when the ':' in its name are written
/// as spaces: `delete` given the name with spaces removes the file that
/// `add` wrote for the name with ':'.
pub proof fn lemma_mod_file_name_ignores_colons(name: Seq<char>)
    ensures
        spec_mod_file_name(colons_to_spaces(name)) == spec_mod_file_name(name),
        forall|i: int|
            0 <= i < colons_to_spaces(name).len() ==> #[trigger] colons_to_spaces(name)[i] != ':',
{
    assert(colons_to_spaces(colons_to_spaces(name)) =~= colons_to_spaces(name));
}

/// Adding a URL mod written `%first%name`, where the fields
/// hold no '%' and the name is ASCII, writes the file that deleting the mod
/// by `name` removes.
pub proof fn lemma_added_mod_is_deleted_by_name(u: Seq<char>, n: Seq<char>)
    requires
        no_pct_char(u),
        plain_field(n),
    ensures
        spec_mod_file_name(fields_of(seq!['%'] + u + seq!['%'] + n).1) == spec_mod_file_name(n),
{
    lemma_fields_of_two_any(u, n);
    lemma_ascii_encoding(n);
    lemma_plain_field_bytes(n);
}

/// A Modrinth resource written `%version_id&name`, as the help text of
/// `add` describes it, where the ID holds neither '&' nor '%', has that ID
/// and that name, whatever the name holds.
pub proof fn lemma_modrinth_ampersand_form(id: Seq<char>, name: Seq<char>)
    requires
        forall|i: int| 0 <= i < id.len() ==> #[trigger] id[i] != '&' && id[i] != '%',
    ensures
        modrinth_fields(seq!['%'] + id + seq!['&'] + name) == (id, name),
{
    let s = seq!['%'] + id + seq!['&'] + name;
    let t = s.drop_first();
    assert(t =~= id + seq!['&'] + name);
    lemma_find_char(t, '&');
    lemma_find_char(t, '%');
    let k = id.len() as int;
    assert(t[k] == '&');
    assert(forall|j: int| 0 <= j < k ==> t[j] == id[j]);
    let fa = find_char(t, '&') as int;
    let fp = find_char(t, '%') as int;
    if fa < k {
        assert(t[fa] == id[fa]);
    }
    if fa > k {
        assert(t[k] != '&');
    }
    if fp <= k {
        assert(t[fp] == '%');
        if fp < k {
            assert(t[fp] == id[fp]);
        }
    }
    assert(t.take(k) =~= id);
    assert(t.skip(k + 1) =~= name);
}

/// The pieces of `s` between its `c` characters, in order, as
/// `split(c)` gives them.
pub open spec fn split_char(s: Seq<char>, c: char) -> Seq<Seq<char>>
    decreases s.len(),
{
    if find_char(s, c) < s.len() {
        seq![s.take(find_char(s, c) as int)] + split_char(s.skip(find_char(s, c) as int + 1), c)
    } else {
        seq![s]
    }
}

/// The pieces joined back together, with nothing between them, as
/// `concat` joins them.
pub open spec fn join_chars(ss: Seq<Seq<char>>) -> Seq<char>
    decreases ss.len(),
{
    if ss.len() == 0 {
        Seq::empty()
    } else {
        ss[0] + join_chars(ss.drop_first())
    }
}

proof fn lemma_ascii_pct_byte(c: char)
    requires
        c <= '\u{7f}',
    ensures
        (c as u8 == pct()) == (c == '%'),
{
    lemma_ascii_char_byte(c);
    if c as u8 == pct() {
        assert(c as u32 == 37);
        vstd::utf8::char_u32_cast(c, 37u32);
        vstd::utf8::char_u32_cast('%', 37u32);
    }
}

proof fn lemma_find_pct_ascii(t: Seq<char>)
    requires
        vstd::utf8::is_ascii_chars(t),
    ensures
        find_pct(ascii_bytes(t)) == find_char(t, '%'),
    decreases t.len(),
{
    if t.len() > 0 {
        lemma_ascii_pct_byte(t[0]);
        assert(ascii_bytes(t)[0] == t[0] as u8);
        assert(ascii_bytes(t).drop_first() =~= ascii_bytes(t.drop_first()));
        assert(vstd::utf8::is_ascii_chars(t.drop_first())) by {
            assert forall|i: int| 0 <= i < t.drop_first().len() implies '\0' <= #[trigger] t.drop_first()[i]
                <= '\u{7f}' by {
                assert(t.drop_first()[i] == t[i + 1]);
            }
        }
        lemma_find_pct_ascii(t.drop_first());
    }
}

proof fn lemma_ascii_sub(t: Seq<char>, a: int, b: int)
    requires
        vstd::utf8::is_ascii_chars(t),
        0 <= a <= b <= t.len(),
    ensures
        vstd::utf8::is_ascii_chars(t.subrange(a, b)),
        ascii_bytes(t.subrange(a, b)) == ascii_bytes(t).subrange(a, b),
{
    assert forall|i: int| 0 <= i < t.subrange(a, b).len() implies '\0' <= #[trigger] t.subrange(
        a,
        b,
    )[i] <= '\u{7f}' by {
        assert(t.subrange(a, b)[i] == t[i + a]);
    }
    assert(ascii_bytes(t.subrange(a, b)) =~= ascii_bytes(t).subrange(a, b));
}

proof fn lemma_split_ascii(t: Seq<char>)
    requires
        vstd::utf8::is_ascii_chars(t),
    ensures
        split_pct(ascii_bytes(t)) == split_char(t, '%').map_values(|x: Seq<char>| ascii_bytes(x)),
        forall|i: int|
            0 <= i < split_char(t, '%').len() ==> vstd::utf8::is_ascii_chars(
                #[trigger] split_char(t, '%')[i],
            ),
    decreases t.len(),
{
    lemma_find_pct_ascii(t);
    lemma_find_char(t, '%');
    let k = find_char(t, '%') as int;
    let b = ascii_bytes(t);
    if k < t.len() {
        let rest = t.skip(k + 1);
        lemma_ascii_sub(t, 0, k);
        lemma_ascii_sub(t, k + 1, t.len() as int);
        assert(t.take(k) =~= t.subrange(0, k));
        assert(b.take(k) =~= b.subrange(0, k));
        assert(rest =~= t.subrange(k + 1, t.len() as int));
        assert(b.skip(k + 1) =~= b.subrange(k + 1, t.len() as int));
        lemma_split_ascii(rest);
        let pc = split_char(t, '%');
        assert(pc == seq![t.take(k)] + split_char(rest, '%'));
        assert(split_pct(b) == seq![b.take(k)] + split_pct(b.skip(k + 1)));
        assert(split_pct(b) =~= pc.map_values(|x: Seq<char>| ascii_bytes(x)));
        assert forall|i: int| 0 <= i < pc.len() implies vstd::utf8::is_ascii_chars(
            #[trigger] pc[i],
        ) by {
            if i > 0 {
                assert(pc[i] == split_char(rest, '%')[i - 1]);
            }
        }
    } else {
        assert(split_char(t, '%') == seq![t]);
        assert(split_pct(b) == seq![b]);
        assert(split_pct(b) =~= seq![t].map_values(|x: Seq<char>| ascii_bytes(x)));
    }
}

proof fn lemma_latin1_ascii(x: Seq<char>)
    requires
        vstd::utf8::is_ascii_chars(x),
    ensures
        latin1(ascii_bytes(x)) == x,
{
    assert forall|j: int| 0 <= j < x.len() implies latin1(ascii_bytes(x))[j] == x[j] by {
        lemma_ascii_char_byte(x[j]);
    }
    assert(latin1(ascii_bytes(x)) =~= x);
}

proof fn lemma_join_ascii(ps: Seq<Seq<char>>)
    requires
        forall|i: int| 0 <= i < ps.len() ==> vstd::utf8::is_ascii_chars(#[trigger] ps[i]),
    ensures
        latin1(join_pieces(ps.map_values(|x: Seq<char>| ascii_bytes(x)))) == join_chars(ps),
    decreases ps.len(),
{
    let bs = ps.map_values(|x: Seq<char>| ascii_bytes(x));
    if ps.len() > 0 {
        assert(vstd::utf8::is_ascii_chars(ps[0]));
        assert forall|i: int| 0 <= i < ps.drop_first().len() implies vstd::utf8::is_ascii_chars(
            #[trigger] ps.drop_first()[i],
        ) by {
            assert(ps.drop_first()[i] == ps[i + 1]);
        }
        lemma_join_ascii(ps.drop_first());
        assert(bs.drop_first() =~= ps.drop_first().map_values(|x: Seq<char>| ascii_bytes(x)));
        lemma_latin1_ascii(ps[0]);
        let rest = join_pieces(bs.drop_first());
        assert(latin1(bs[0] + rest) =~= latin1(bs[0]) + latin1(rest));
    } else {
        assert(latin1(Seq::<u8>::empty()) =~= Seq::<char>::empty());
    }
}

/// For ASCII text the three fields are the pieces that `split('%')` cuts
/// the text into after its first character: the first piece, the second
/// (empty when there is none), and every further piece joined together.
pub proof fn lemma_fields_of_ascii_are_split_pieces(s: Seq<char>)
    requires
        vstd::utf8::is_ascii_chars(s),
        s.len() >= 1,
    ensures
        ({
            let p = split_char(s.drop_first(), '%');
            fields_of(s) == (
                p[0],
                if p.len() > 1 { p[1] } else { Seq::<char>::empty() },
                if p.len() > 2 { join_chars(p.skip(2)) } else { Seq::<char>::empty() },
            )
        }),
{
    let t = s.drop_first();
    lemma_ascii_encoding(s);
    lemma_ascii_sub(s, 1, s.len() as int);
    assert(t =~= s.subrange(1, s.len() as int));
    let b = ascii_bytes(s);
    assert(input_tail(b) =~= ascii_bytes(t));
    lemma_split_fields_are_split_pieces(b);
    lemma_split_ascii(t);
    let p = split_char(t, '%');
    let bp = split_pct(ascii_bytes(t));
    lemma_split_pct_nonempty(ascii_bytes(t));
    assert(bp.len() == p.len());
    lemma_latin1_ascii(p[0]);
    if p.len() > 1 {
        lemma_latin1_ascii(p[1]);
    } else {
        assert(latin1(Seq::<u8>::empty()) =~= Seq::<char>::empty());
    }
    if p.len() > 2 {
        let ps = p.skip(2);
        assert forall|i: int| 0 <= i < ps.len() implies vstd::utf8::is_ascii_chars(
            #[trigger] ps[i],
        ) by {
            assert(ps[i] == p[i + 2]);
        }
        assert(bp.skip(2) =~= ps.map_values(|x: Seq<char>| ascii_bytes(x)));
        lemma_join_ascii(ps);
    }
}

} // verus!
