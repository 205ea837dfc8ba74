use carton::push::{
    chunk_ranges, download_size_ok, install_source, is_mod_descriptor, keep_in_push_names,
    next_copy_depth, should_keep_in_push,
};
use carton::resource::{CurseforgeFile, ModrinthFile, Resource, Source, UrlFile};

#[test]
fn kept_entries() {
    assert!(should_keep_in_push("saves", "MyPack"));
    assert!(should_keep_in_push("options.txt", "MyPack"));
    assert!(should_keep_in_push("MyPack.json", "MyPack"));
    assert!(should_keep_in_push("xaero-minimap", "MyPack"));
    assert!(should_keep_in_push("PCL.ini", "MyPack"));
    assert!(!should_keep_in_push("mods", "MyPack"));
    assert!(!should_keep_in_push("config", "MyPack"));
    assert!(!should_keep_in_push("pcl", "MyPack"));
    assert!(should_keep_in_push("anything", ""));
    assert_eq!(keep_in_push_names().len(), 11);
}

#[test]
fn mod_descriptors() {
    assert!(is_mod_descriptor("JEI.toml", true));
    assert!(!is_mod_descriptor("JEI.toml", false));
    assert!(!is_mod_descriptor("JEI.jar", true));
    assert!(is_mod_descriptor(".toml", true));
    assert!(!is_mod_descriptor("toml", true));
}

#[test]
fn install_sources() {
    let r = Resource { name: "A".to_string(), source: Source::Url(UrlFile { url: "https://x/a.jar".to_string() }) };
    match install_source(&r) {
        Some(Source::Url(f)) => assert_eq!(f.url, "https://x/a.jar"),
        _ => panic!("expected a URL"),
    }
    let m = Resource { name: "B".to_string(), source: Source::Modrinth(ModrinthFile { version_id: "AbC12".to_string() }) };
    match install_source(&m) {
        Some(Source::Modrinth(f)) => assert_eq!(f.version_id, "AbC12"),
        _ => panic!("expected a Modrinth version"),
    }
    let c = Resource {
        name: "C".to_string(),
        source: Source::Curseforge(CurseforgeFile { project_id: "1".to_string(), file_id: "2".to_string() }),
    };
    assert!(install_source(&c).is_none());
}

#[test]
fn chunks() {
    assert_eq!(chunk_ranges(100, 4), vec![(0, 24), (25, 49), (50, 74), (75, 100)]);
    assert_eq!(chunk_ranges(10, 3), vec![(0, 2), (3, 5), (6, 10)]);
    assert_eq!(chunk_ranges(0, 1), vec![(0, 0)]);
    assert_eq!(chunk_ranges(7, 7).len(), 7);
}

#[test]
fn chunks_are_contiguous() {
    for (total, threads) in [(1000u64, 4usize), (17, 5), (4, 4), (123457, 1)] {
        let r = chunk_ranges(total, threads);
        assert_eq!(r[0].0, 0);
        assert_eq!(r[threads - 1].1, total);
        for i in 0..threads - 1 {
            assert_eq!(r[i + 1].0, r[i].1 + 1);
        }
    }
}

#[test]
fn copy_depth() {
    assert_eq!(next_copy_depth(1), Some(2));
    assert_eq!(next_copy_depth(199), Some(200));
    assert_eq!(next_copy_depth(200), None);
    assert!(download_size_ok(5, 5));
    assert!(!download_size_ok(5, 6));
}
