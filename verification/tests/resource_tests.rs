use carton::modpack::{ModLoader, ModPack};
use carton::profile::{is_help_flag, mod_profile, push_profile, Profile};
use carton::resource::{
    begins_with_pct, get_from_curseforge, get_from_modrinth, get_from_url, mod_file_name,
    parse_source_kind, split_input, Source, SourceKind,
};

fn pack() -> ModPack {
    ModPack::new("P".to_string(), "1.20.1".to_string(), ModLoader::Forge("47.1.0".to_string()))
}

#[test]
fn split_three_fields() {
    let (mut a, mut b, mut c) = (String::new(), String::new(), String::new());
    split_input(&mut a, &mut b, &mut c, &"%123%456%JEI".to_string());
    assert_eq!((a.as_str(), b.as_str(), c.as_str()), ("123", "456", "JEI"));
}

#[test]
fn split_appends_to_what_is_there() {
    let (mut a, mut b, mut c) = ("x".to_string(), "y".to_string(), "z".to_string());
    split_input(&mut a, &mut b, &mut c, &"%1%2%3".to_string());
    assert_eq!((a.as_str(), b.as_str(), c.as_str()), ("x1", "y2", "z3"));
}

#[test]
fn split_skips_the_first_byte_whatever_it_is() {
    let (mut a, mut b, mut c) = (String::new(), String::new(), String::new());
    split_input(&mut a, &mut b, &mut c, &"#ab%cd".to_string());
    assert_eq!((a.as_str(), b.as_str(), c.as_str()), ("ab", "cd", ""));
}

#[test]
fn split_drops_extra_separators_from_the_third_field() {
    let (mut a, mut b, mut c) = (String::new(), String::new(), String::new());
    split_input(&mut a, &mut b, &mut c, &"%a%b%c%d%e".to_string());
    assert_eq!((a.as_str(), b.as_str(), c.as_str()), ("a", "b", "cde"));
}

#[test]
fn split_short_inputs() {
    let (mut a, mut b, mut c) = (String::new(), String::new(), String::new());
    split_input(&mut a, &mut b, &mut c, &"%only".to_string());
    assert_eq!((a.as_str(), b.as_str(), c.as_str()), ("only", "", ""));
    let (mut a, mut b, mut c) = (String::new(), String::new(), String::new());
    split_input(&mut a, &mut b, &mut c, &String::new());
    assert_eq!((a.as_str(), b.as_str(), c.as_str()), ("", "", ""));
    let (mut a, mut b, mut c) = (String::new(), String::new(), String::new());
    split_input(&mut a, &mut b, &mut c, &"%%%".to_string());
    assert_eq!((a.as_str(), b.as_str(), c.as_str()), ("", "", ""));
}

#[test]
fn split_reads_bytes() {
    // "é" is two bytes; each becomes the character with its number.
    let (mut a, mut b, mut c) = (String::new(), String::new(), String::new());
    split_input(&mut a, &mut b, &mut c, &"%é%x".to_string());
    assert_eq!(a, "\u{c3}\u{a9}");
    assert_eq!(b, "x");
}

#[test]
fn curseforge_resource() {
    let r = get_from_curseforge(&pack(), &"%238222%4712866%JEI".to_string());
    assert_eq!(r.name, "JEI");
    match r.source {
        Source::Curseforge(f) => {
            assert_eq!(f.project_id, "238222");
            assert_eq!(f.file_id, "4712866");
        }
        _ => panic!("wrong source"),
    }
    assert!(!begins_with_pct(&"jei".to_string()));
}

#[test]
fn modrinth_resource() {
    let r = get_from_modrinth(&pack(), &"%AbCdEf12%Sodium".to_string());
    assert_eq!(r.name, "Sodium");
    match r.source {
        Source::Modrinth(f) => assert_eq!(f.version_id, "AbCdEf12"),
        _ => panic!("wrong source"),
    }
    let extra = get_from_modrinth(&pack(), &"%v1%Name%ignored".to_string());
    assert_eq!(extra.name, "Name");
}

#[test]
fn url_resource() {
    let r = get_from_url(&"%https://example.com/a.jar%A".to_string());
    assert_eq!(r.name, "A");
    match r.source {
        Source::Url(f) => assert_eq!(f.url, "https://example.com/a.jar"),
        _ => panic!("wrong source"),
    }
    assert!(!begins_with_pct(&"https://example.com/a.jar".to_string()));
    assert!(begins_with_pct(&"%".to_string()));
    assert!(!begins_with_pct(&String::new()));
}

#[test]
fn mod_file_names() {
    assert_eq!(mod_file_name("JEI"), "JEI.toml");
    assert_eq!(mod_file_name("a:b:c"), "a b c.toml");
    assert_eq!(mod_file_name(""), ".toml");
    assert_eq!(mod_file_name(&mod_file_name("x:y")[..3]), mod_file_name("x:y"));
}

#[test]
fn source_kinds() {
    assert_eq!(parse_source_kind("curseforge"), Some(SourceKind::Curseforge));
    assert_eq!(parse_source_kind("c"), Some(SourceKind::Curseforge));
    assert_eq!(parse_source_kind("modrinth"), Some(SourceKind::Modrinth));
    assert_eq!(parse_source_kind("m"), Some(SourceKind::Modrinth));
    assert_eq!(parse_source_kind("url"), Some(SourceKind::Url));
    assert_eq!(parse_source_kind("u"), Some(SourceKind::Url));
    assert_eq!(parse_source_kind("github"), None);
}

#[test]
fn profiles() {
    assert_eq!(mod_profile("common"), Some(Profile::Common));
    assert_eq!(mod_profile("c"), Some(Profile::Common));
    assert_eq!(mod_profile("d"), Some(Profile::Dev));
    assert_eq!(mod_profile("dev"), Some(Profile::Dev));
    assert_eq!(mod_profile("r"), Some(Profile::Release));
    assert_eq!(mod_profile("release"), Some(Profile::Release));
    assert_eq!(mod_profile("x"), None);
    assert_eq!(push_profile("d"), Some(Profile::Dev));
    assert_eq!(push_profile("release"), Some(Profile::Release));
    assert_eq!(push_profile("common"), None);
    for p in [Profile::Common, Profile::Dev, Profile::Release] {
        assert_eq!(mod_profile(p.dir_name()), Some(p));
    }
    assert_eq!(Profile::Dev.dir_name(), "dev");
}

#[test]
fn help_flags() {
    assert!(is_help_flag("-h"));
    assert!(is_help_flag("-help"));
    assert!(!is_help_flag("--help"));
}

#[test]
fn split_matches_rust_split() {
    for s in ["%a%b%c%d", "%a", "%a%b", "%%x%", "#x%y%%z", "%", "%one%two%"] {
        let t = &s[1..];
        let p: Vec<&str> = t.split('%').collect();
        let (mut a, mut b, mut c) = (String::new(), String::new(), String::new());
        split_input(&mut a, &mut b, &mut c, &s.to_string());
        assert_eq!(a, p[0], "{}", s);
        assert_eq!(b, if p.len() > 1 { p[1] } else { "" }, "{}", s);
        assert_eq!(c, if p.len() > 2 { p[2..].concat() } else { String::new() }, "{}", s);
    }
}

#[test]
fn added_mod_is_deleted_by_name() {
    let r = get_from_url(&"%https://例え.jp/a.jar%Applied:Energistics".to_string());
    assert_eq!(r.name, "Applied:Energistics");
    assert_eq!(mod_file_name(&r.name), mod_file_name("Applied:Energistics"));
    assert_eq!(mod_file_name(&r.name), mod_file_name("Applied Energistics"));
}

#[test]
fn modrinth_ampersand_form() {
    let r = get_from_modrinth(&pack(), &"%AANobbMI&Sodium".to_string());
    assert_eq!(r.name, "Sodium");
    match r.source {
        Source::Modrinth(f) => assert_eq!(f.version_id, "AANobbMI"),
        _ => panic!("wrong source"),
    }
    let r = get_from_modrinth(&pack(), &"%v1&Tom & Jerry: Ünïcode".to_string());
    assert_eq!(r.name, "Tom & Jerry: Ünïcode");
    let r = get_from_modrinth(&pack(), &"%v1%Rock&Stone".to_string());
    assert_eq!(r.name, "Rock&Stone");
    match r.source {
        Source::Modrinth(f) => assert_eq!(f.version_id, "v1"),
        _ => panic!("wrong source"),
    }
    let r = get_from_modrinth(&pack(), &"%v2&".to_string());
    assert_eq!(r.name, "");
}
