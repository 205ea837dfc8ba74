use carton::json::Json;
use carton::modpack::{ModLoader, ModPack};
use carton::pin::{
    check_version_json, pin_from_version_text, pin_instance, read_version_json, version_json_names,
    PinError,
};

fn s(x: &str) -> Json {
    Json::Str(x.to_string())
}

fn obj(members: Vec<(&str, Json)>) -> Json {
    Json::Object(members.into_iter().map(|(k, v)| (k.to_string(), v)).collect())
}

fn version_file(assets: &str, game: Vec<Json>) -> Json {
    obj(vec![
        ("assets", s(assets)),
        ("arguments", obj(vec![("game", Json::Array(game))])),
    ])
}

fn pack(loader: ModLoader) -> ModPack {
    ModPack::new("MyPack".to_string(), "1.20.1".to_string(), loader)
}

#[test]
fn reads_forge_instance() {
    let j = version_file(
        "5",
        vec![s("--username"), s("x"), s("--fml.forgeVersion"), s("47.1.0"), s("--fml.mcVersion"), s("1.20.1")],
    );
    assert!(check_version_json(&j));
    let (mc, l) = read_version_json(&j);
    assert_eq!(mc, "1.20.1");
    assert_eq!(l, ModLoader::Forge("47.1.0".to_string()));
}

#[test]
fn reads_neoforge_and_later_flags_win() {
    let j = version_file(
        "1.20.4",
        vec![s("--fml.forgeVersion"), s("1"), s("--fml.neoForgeVersion"), s("20.4.80"), Json::Null],
    );
    let (mc, l) = read_version_json(&j);
    assert_eq!(mc, "1.20.4");
    assert_eq!(l, ModLoader::NeoForge("20.4.80".to_string()));
}

#[test]
fn non_string_value_reads_as_unknown() {
    let j = version_file("1.20.1", vec![s("--fml.mcVersion"), Json::Number("3".to_string())]);
    let (mc, l) = read_version_json(&j);
    assert_eq!(mc, "-1");
    assert_eq!(l, ModLoader::Forge("-1".to_string()));
}

#[test]
fn assets_not_a_string() {
    let j = obj(vec![("assets", Json::Number("5".to_string()))]);
    assert!(check_version_json(&j));
    let (mc, _) = read_version_json(&j);
    assert_eq!(mc, "-1");
}

#[test]
fn unreadable_version_files() {
    assert!(!check_version_json(&obj(vec![("id", s("x"))])));
    assert!(!check_version_json(&Json::Array(vec![])));
    assert!(!check_version_json(&version_file("1.20.1", vec![s("--fml.mcVersion")])));
    assert!(check_version_json(&version_file("1.20.1", vec![s("--other")])));
}

#[test]
fn pin_succeeds_when_everything_matches() {
    let j = version_file("5", vec![s("--fml.forgeVersion"), s("47.1.0"), s("--fml.mcVersion"), s("1.20.1")]);
    let inst = pin_instance(&pack(ModLoader::Forge("47.1.0".to_string())), &j, "/games/MyPack".to_string());
    assert_eq!(inst.unwrap().dir(), "/games/MyPack");
}

#[test]
fn pin_errors() {
    let p = pack(ModLoader::Forge("47.1.0".to_string()));
    let no_mc = version_file("-1", vec![]);
    assert_eq!(pin_instance(&p, &no_mc, "d".to_string()).err(), Some(PinError::NoMinecraftVersion));
    let other_mc = version_file("1.19.2", vec![s("--fml.forgeVersion"), s("47.1.0")]);
    assert_eq!(
        pin_instance(&p, &other_mc, "d".to_string()).err(),
        Some(PinError::MinecraftVersionMismatch("1.19.2".to_string()))
    );
    let other_loader = version_file("1.20.1", vec![s("--fml.neoForgeVersion"), s("47.1.0")]);
    assert_eq!(
        pin_instance(&p, &other_loader, "d".to_string()).err(),
        Some(PinError::ModLoaderMismatch(ModLoader::NeoForge("47.1.0".to_string())))
    );
    let vanilla = version_file("1.20.1", vec![]);
    assert_eq!(
        pin_instance(&p, &vanilla, "d".to_string()).err(),
        Some(PinError::ModLoaderMismatch(ModLoader::Forge("-1".to_string())))
    );
}

#[test]
fn version_file_names() {
    let (a, b) = version_json_names(&pack(ModLoader::Fabric("0.15".to_string())));
    assert_eq!(a, "MyPack.json");
    assert_eq!(b, "1.20.1.json");
}

#[test]
fn pin_from_text() {
    let p = pack(ModLoader::NeoForge("20.4.80".to_string()));
    let text = r#"{"id":"MyPack","assets":"16","arguments":{"game":["--fml.neoForgeVersion","20.4.80","--fml.mcVersion","1.20.1"]}}"#;
    let inst = pin_from_version_text(&p, text, "/g/MyPack".to_string()).unwrap();
    assert_eq!(inst.dir(), "/g/MyPack");
    assert_eq!(pin_from_version_text(&p, "{", "d".to_string()).err(), Some(PinError::Unreadable));
    assert_eq!(pin_from_version_text(&p, r#"{"id":"x"}"#, "d".to_string()).err(), Some(PinError::Unreadable));
    let old = r#"{"assets":"1.19.2","arguments":{"game":["--fml.neoForgeVersion","20.4.80"]}}"#;
    assert_eq!(
        pin_from_version_text(&p, old, "d".to_string()).err(),
        Some(PinError::MinecraftVersionMismatch("1.19.2".to_string()))
    );
}
