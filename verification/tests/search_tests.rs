use carton::json::Json;
use carton::modpack::{ModLoader, ModPack};
use carton::resource::Source;
use carton::search::{
    modrinth_search_resource, project_versions_url, read_project_versions, read_search_hits,
    search_facets, select_index, version_query, Pick,
};

fn obj(members: Vec<(&str, Json)>) -> Json {
    Json::Object(members.into_iter().map(|(k, v)| (k.to_string(), v)).collect())
}

fn s(x: &str) -> Json {
    Json::Str(x.to_string())
}

#[test]
fn search_parameters() {
    let p = ModPack::new("P".to_string(), "1.20.1".to_string(), ModLoader::NeoForge("20".to_string()));
    assert_eq!(
        search_facets(&p),
        r#"[["versions:1.20.1"],["categories:neoforge"],["project_type:mod"]]"#
    );
    let (loaders, games) = version_query(&p);
    assert_eq!(loaders, r#"["neoforge"]"#);
    assert_eq!(games, r#"["1.20.1"]"#);
    assert_eq!(project_versions_url("AANobbMI"), "https://api.modrinth.com/v2/project/AANobbMI/version");
}

#[test]
fn search_hits() {
    let body = obj(vec![(
        "hits",
        Json::Array(vec![
            obj(vec![("title", s("Sodium")), ("project_id", s("AANobbMI")), ("downloads", Json::Number("9".to_string()))]),
            obj(vec![("title", s("Lithium")), ("project_id", s("gvQqBUqZ"))]),
        ]),
    )]);
    let hits = read_search_hits(&body).unwrap();
    assert_eq!(hits, vec![("Sodium".to_string(), "AANobbMI".to_string()), ("Lithium".to_string(), "gvQqBUqZ".to_string())]);
    let bad = obj(vec![("hits", Json::Array(vec![obj(vec![("title", s("x"))])]))]);
    assert!(read_search_hits(&bad).is_none());
    assert!(read_search_hits(&obj(vec![])).is_none());
}

#[test]
fn project_versions() {
    let body = Json::Array(vec![obj(vec![
        ("id", s("v1")),
        ("version_type", s("release")),
        ("version_number", s("0.5.8")),
    ])]);
    let vs = read_project_versions(&body).unwrap();
    assert_eq!(vs, vec![("v1".to_string(), "release".to_string(), "0.5.8".to_string())]);
    assert!(read_project_versions(&obj(vec![])).is_none());
    assert!(read_project_versions(&Json::Array(vec![obj(vec![("id", s("v"))])])).is_none());
}

#[test]
fn choosing_by_index() {
    assert_eq!(select_index(0, 3), Pick::Cancel);
    assert_eq!(select_index(1, 3), Pick::Entry(0));
    assert_eq!(select_index(3, 3), Pick::Entry(2));
    assert_eq!(select_index(4, 3), Pick::OutOfRange);
    assert_eq!(select_index(0, 0), Pick::Cancel);
    assert_eq!(select_index(1, 0), Pick::OutOfRange);
}

#[test]
fn resource_from_search() {
    let hits = vec![("Sodium".to_string(), "AANobbMI".to_string()), ("Lithium".to_string(), "gvQqBUqZ".to_string())];
    let versions = vec![
        ("v1".to_string(), "release".to_string(), "0.5.8".to_string()),
        ("v2".to_string(), "beta".to_string(), "0.6.0".to_string()),
    ];
    let r = modrinth_search_resource(&hits, 1, &versions, 0);
    assert_eq!(r.name, "Lithium");
    match r.source {
        Source::Modrinth(f) => assert_eq!(f.version_id, "v1"),
        _ => panic!("wrong source"),
    }
}
