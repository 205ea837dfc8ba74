use carton::modpack::{
    match_modloader, modify_choice, modloader_kind, GameInstance, LoaderKind, ModLoader,
    ModPack, ModifyChoice,
};
use carton::VERSION;

#[test]
fn version_is_0_1_0() {
    assert_eq!(VERSION, "0.1.0");
}

#[test]
fn loader_names() {
    assert_eq!(ModLoader::Forge("47.1.0".to_string()).get_name(), "Forge");
    assert_eq!(ModLoader::NeoForge("20.4.1".to_string()).get_name(), "NeoForge");
    assert_eq!(ModLoader::Fabric("0.15.0".to_string()).get_name(), "Fabric");
    assert_eq!(ModLoader::Quilt("0.20.0".to_string()).get_name(), "Quilt");
    assert_eq!(ModLoader::NeoForge("1".to_string()).get_lowercase_name(), "neoforge");
    assert_eq!(LoaderKind::Quilt.name(), "Quilt");
}

#[test]
fn loader_version() {
    let l = ModLoader::Fabric("0.15.7".to_string());
    assert_eq!(l.get_version(), "0.15.7");
    assert_eq!(l.kind(), LoaderKind::Fabric);
}

#[test]
fn loader_equals() {
    let a = ModLoader::Forge("47.1.0".to_string());
    let b = ModLoader::Forge("47.1.0".to_string());
    let c = ModLoader::Forge("47.2.0".to_string());
    let d = ModLoader::NeoForge("47.1.0".to_string());
    assert!(a.equals(&b));
    assert!(b.equals(&a));
    assert!(a.equals(&a));
    assert!(!a.equals(&c));
    assert!(!a.equals(&d));
}

#[test]
fn loader_with_version_keeps_kind() {
    let a = ModLoader::Quilt("1".to_string());
    let b = a.with_version("2".to_string());
    assert_eq!(b, ModLoader::Quilt("2".to_string()));
    assert_eq!(a.duplicate(), a);
}

#[test]
fn choosing_a_loader() {
    assert_eq!(modloader_kind("1"), Some(LoaderKind::Forge));
    assert_eq!(modloader_kind("2"), Some(LoaderKind::NeoForge));
    assert_eq!(modloader_kind("3"), Some(LoaderKind::Fabric));
    assert_eq!(modloader_kind("4"), Some(LoaderKind::Quilt));
    assert_eq!(modloader_kind("5"), None);
    assert_eq!(modloader_kind(""), None);
    assert_eq!(
        match_modloader("2".to_string(), "20.4.80".to_string()),
        Some(ModLoader::NeoForge("20.4.80".to_string()))
    );
    assert_eq!(match_modloader("forge".to_string(), "1".to_string()), None);
}

#[test]
fn new_modpack_starts_at_0_1_0() {
    let m = ModPack::new(
        "MyPack".to_string(),
        "1.20.1".to_string(),
        ModLoader::Forge("47.1.0".to_string()),
    );
    assert_eq!(m.name(), "MyPack");
    assert_eq!(m.modpack_version(), "0.1.0");
    assert_eq!(m.mc_version(), "1.20.1");
    assert_eq!(m.modloader(), &ModLoader::Forge("47.1.0".to_string()));
}

#[test]
fn modify_changes_one_setting() {
    let mut m = ModPack::from_parts(
        "P".to_string(),
        "0.2.0".to_string(),
        "1.20.1".to_string(),
        ModLoader::Forge("47.1.0".to_string()),
    );
    m.set_mc_version("1.21".to_string());
    assert_eq!(m.mc_version(), "1.21");
    assert_eq!(m.modpack_version(), "0.2.0");
    m.set_modloader_version("47.3.0".to_string());
    assert_eq!(m.modloader(), &ModLoader::Forge("47.3.0".to_string()));
    m.set_modloader(ModLoader::Fabric("0.16".to_string()));
    assert_eq!(m.modloader(), &ModLoader::Fabric("0.16".to_string()));
    assert_eq!(m.name(), "P");
}

#[test]
fn modify_choices() {
    assert_eq!(modify_choice(1), ModifyChoice::McVersion);
    assert_eq!(modify_choice(2), ModifyChoice::ModLoader);
    assert_eq!(modify_choice(3), ModifyChoice::ModLoaderVersion);
    assert_eq!(modify_choice(0), ModifyChoice::Cancel);
    assert_eq!(modify_choice(-7), ModifyChoice::Cancel);
}

#[test]
fn game_instance_pinned() {
    assert!(GameInstance::new("/games/pack".to_string()).is_pinned());
    assert!(!GameInstance::new(String::new()).is_pinned());
    assert_eq!(GameInstance::new("/x".to_string()).dir(), "/x");
}
