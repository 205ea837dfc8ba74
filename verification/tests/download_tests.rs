use carton::download::{
    check_modrinth_version, file_name_from_header, modrinth_file_info, modrinth_version_file,
    modrinth_version_url,
    prase_filename, range_header,
};
use carton::json::{parse_json, Json};

fn obj(members: Vec<(&str, Json)>) -> Json {
    Json::Object(members.into_iter().map(|(k, v)| (k.to_string(), v)).collect())
}

#[test]
fn file_name_from_disposition() {
    assert_eq!(
        prase_filename(Some("attachment; filename=\"sodium-0.5.jar\""), Some("/x/y.jar")),
        Some("sodium-0.5.jar".to_string())
    );
    assert_eq!(prase_filename(Some("attachment; filename=a.jar"), None), Some("a.jar".to_string()));
    assert_eq!(
        prase_filename(Some("filename=\"a\"; filename=\"b\""), None),
        Some("a\"; ".to_string())
    );
    assert_eq!(file_name_from_header("inline"), None);
    assert_eq!(file_name_from_header("filename=\"\"\""), Some(String::new()));
}

#[test]
fn file_name_from_url() {
    assert_eq!(prase_filename(None, Some("/data/mods/jei.jar")), Some("jei.jar".to_string()));
    assert_eq!(prase_filename(Some("inline"), Some("/a/b")), Some("b".to_string()));
    assert_eq!(prase_filename(None, Some("/")), Some(String::new()));
    assert_eq!(prase_filename(None, None), None);
}

#[test]
fn modrinth_files() {
    let file = obj(vec![
        ("url", Json::Str("https://cdn.modrinth.com/a.jar".to_string())),
        ("filename", Json::Str("a.jar".to_string())),
        ("size", Json::Number("1234".to_string())),
    ]);
    let version = obj(vec![("files", Json::Array(vec![file]))]);
    assert!(check_modrinth_version(&version));
    let (url, name, size) = modrinth_file_info(&version);
    assert_eq!(url, "https://cdn.modrinth.com/a.jar");
    assert_eq!(name, "a.jar");
    assert_eq!(size, 1234);
    assert!(!check_modrinth_version(&obj(vec![("files", Json::Array(vec![]))])));
    assert!(!check_modrinth_version(&obj(vec![])));
}

#[test]
fn urls_and_headers() {
    assert_eq!(modrinth_version_url("IZskON6d"), "https://api.modrinth.com/v2/version/IZskON6d");
    assert_eq!(range_header(0, 24), "bytes=0-24");
    assert_eq!(range_header(75, 100), "bytes=75-100");
}

#[test]
fn modrinth_answer_text() {
    let answer = r#"{"id":"v1","files":[{"url":"https://cdn.modrinth.com/data/x/sodium.jar","filename":"sodium.jar","size":704512,"primary":true}]}"#;
    let (url, name, size) = modrinth_version_file(answer).unwrap();
    assert_eq!(url, "https://cdn.modrinth.com/data/x/sodium.jar");
    assert_eq!(name, "sodium.jar");
    assert_eq!(size, 704512);
    assert!(modrinth_version_file("not json").is_none());
    assert!(modrinth_version_file(r#"{"files":[]}"#).is_none());
    assert!(modrinth_version_file(r#"{"files":[{"url":"u","filename":"f","size":-3}]}"#).is_none());
    assert!(modrinth_version_file(r#"{"files":[{"url":"u","filename":"f","size":1.5}]}"#).is_none());
}

#[test]
fn parsing_json_text() {
    let doc = parse_json(r#"{"a":[1,-2,3.5,"x",null,true]}"#).unwrap();
    let a = doc.get("a").unwrap().as_array().unwrap();
    assert_eq!(a[0], Json::Number("1".to_string()));
    assert_eq!(a[0].as_u64(), Some(1));
    assert_eq!(a[1].as_u64(), None);
    assert_eq!(a[2].as_u64(), None);
    assert_eq!(a[3], Json::Str("x".to_string()));
    assert_eq!(a[4], Json::Null);
    assert_eq!(a[5], Json::Bool(true));
    assert!(parse_json("{").is_none());
}
