//! Pinning a modpack to a game instance: reading the Minecraft version and
//! the mod loader from the instance's version file, and checking them
//! against the modpack.
use vstd::prelude::*;
use crate::json::{parse_json, spec_parse_json, Json};
use crate::modpack::{GameInstance, LoaderKind, ModLoader, ModPack};

verus! {

/// What a version file says before anything in it is read: no version.
pub open spec fn unknown() -> Seq<char> {
    "-1"@
}

pub open spec fn neoforge_flag() -> Seq<char> {
    "--fml.neoForgeVersion"@
}

pub open spec fn forge_flag() -> Seq<char> {
    "--fml.forgeVersion"@
}

pub open spec fn mc_flag() -> Seq<char> {
    "--fml.mcVersion"@
}

/// Whether a game argument is one of the three flags that are followed by
/// a version.
pub open spec fn is_version_flag(arg: Json) -> bool {
    match arg {
        Json::Str(s) => s@ == neoforge_flag() || s@ == forge_flag() || s@ == mc_flag(),
        _ => false,
    }
}

/// The version given after the flag at `i`: the next argument when it is a
/// string, else "-1".
pub open spec fn value_after(args: Seq<Json>, i: int) -> Seq<char> {
    match args[i + 1] {
        Json::Str(v) => v@,
        _ => unknown(),
    }
}

/// The Minecraft version and the loader after reading the first `n` game
/// arguments: `--fml.neoForgeVersion v` sets the loader to NeoForge `v`,
/// `--fml.forgeVersion v` to Forge `v`, `--fml.mcVersion v` the Minecraft
/// version to `v`; a later flag overrides an earlier one.
pub open spec fn scan_args(
    args: Seq<Json>,
    n: nat,
    mc: Seq<char>,
    loader: (LoaderKind, Seq<char>),
) -> (Seq<char>, (LoaderKind, Seq<char>))
    decreases n,
{
    if n == 0 {
        (mc, loader)
    } else {
        let prev = scan_args(args, (n - 1) as nat, mc, loader);
        let i = n - 1;
        match args[i] {
            Json::Str(s) => if s@ == neoforge_flag() {
                (prev.0, (LoaderKind::NeoForge, value_after(args, i)))
            } else if s@ == forge_flag() {
                (prev.0, (LoaderKind::Forge, value_after(args, i)))
            } else if s@ == mc_flag() {
                (value_after(args, i), prev.1)
            } else {
                prev
            },
            _ => prev,
        }
    }
}

/// The game arguments of a version file: the array at `arguments.game`.
pub open spec fn game_args(json: Json) -> Option<Seq<Json>> {
    match json.member("arguments"@) {
        Some(a) => match a.member("game"@) {
            Some(Json::Array(v)) => Some(v@),
            _ => None,
        },
        None => None,
    }
}

/// The Minecraft version named by `assets`, when it is a string.
pub open spec fn assets_version(json: Json) -> Seq<char> {
    match json.member("assets"@) {
        Some(Json::Str(s)) => s@,
        _ => unknown(),
    }
}

/// The Minecraft version and the mod loader that a version file names.
/// Either is "-1" where the file does not say; without a loader flag the
/// loader reads as Forge "-1".
pub open spec fn instance_versions(json: Json) -> (Seq<char>, (LoaderKind, Seq<char>)) {
    let mc = assets_version(json);
    let loader = (LoaderKind::Forge, unknown());
    match game_args(json) {
        Some(args) => scan_args(args, args.len(), mc, loader),
        None => (mc, loader),
    }
}

/// Whether a version file can be read: it has a member `assets`, and no
/// version flag is the last game argument.
pub open spec fn version_json_readable(json: Json) -> bool {
    &&& json.member("assets"@) is Some
    &&& game_args(json) matches Some(args) ==> forall|i: int|
        0 <= i < args.len() && #[trigger] is_version_flag(args[i]) ==> i + 1 < args.len()
}

/// Whether the version file `json` can be read by `read_version_json`.
pub fn check_version_json(json: &Json) -> (r: bool)
    ensures
        r == version_json_readable(*json),
{
    if json.get("assets").is_none() {
        return false;
    }
    let array = match json.get("arguments") {
        Some(arguments) => match arguments.get("game") {
            Some(game) => match game.as_array() {
                Some(array) => array,
                None => return true,
            },
            None => return true,
        },
        None => return true,
    };
    let n = array.len();
    let neo = String::from_str("--fml.neoForgeVersion");
    let forge = String::from_str("--fml.forgeVersion");
    let mc = String::from_str("--fml.mcVersion");
    for i in 0..n
        invariant
            n == array@.len(),
            game_args(*json) == Some(array@),
            neo@ == neoforge_flag(),
            forge@ == forge_flag(),
            mc@ == mc_flag(),
            forall|j: int| 0 <= j < i && #[trigger] is_version_flag(array@[j]) ==> j + 1 < n,
    {
        match &array[i] {
            Json::Str(s) => {
                if (*s == neo || *s == forge || *s == mc) && i + 1 == n {
                    proof {
                        let args = game_args(*json)->0;
                        assert(args == array@);
                        assert(is_version_flag(args[i as int]));
                        assert(!(i + 1 < args.len()));
                    }
                    return false;
                }
            },
            _ => {},
        }
    }
    true
}

/// The version after the flag at `i`.
fn read_value_after(array: &Vec<Json>, i: usize) -> (r: String)
    requires
        i + 1 < array@.len(),
    ensures
        r@ == value_after(array@, i as int),
{
    let n = array.len();
    assert(i + 1 < n);
    match &array[i + 1] {
        Json::Str(v) => v.clone(),
        _ => String::from_str("-1"),
    }
}

/// The Minecraft version and the mod loader named by a game instance's
/// version file.
pub fn read_version_json(json: &Json) -> (r: (String, ModLoader))
    requires
        version_json_readable(*json),
    ensures
        (r.0@, r.1@) == instance_versions(*json),
{
    let mut mc_version = String::from_str("-1");
    match json.get("assets") {
        Some(Json::Str(s)) => {
            mc_version = s.clone();
        },
        _ => {},
    }
    let mut modloader = ModLoader::Forge(String::from_str("-1"));
    let ghost mc0 = mc_version@;
    let ghost l0 = modloader@;
    assert(mc0 == assets_version(*json));
    let array = match json.get("arguments") {
        Some(arguments) => match arguments.get("game") {
            Some(game) => match game.as_array() {
                Some(array) => array,
                None => return (mc_version, modloader),
            },
            None => return (mc_version, modloader),
        },
        None => return (mc_version, modloader),
    };
    let n = array.len();
    let neo = String::from_str("--fml.neoForgeVersion");
    let forge = String::from_str("--fml.forgeVersion");
    let mc = String::from_str("--fml.mcVersion");
    for i in 0..n
        invariant
            n == array@.len(),
            game_args(*json) == Some(array@),
            version_json_readable(*json),
            neo@ == neoforge_flag(),
            forge@ == forge_flag(),
            mc@ == mc_flag(),
            (mc_version@, modloader@) == scan_args(array@, i as nat, mc0, l0),
    {
        proof {
            let args = game_args(*json)->0;
            assert(args == array@);
            assert(is_version_flag(args[i as int]) ==> i + 1 < args.len());
        }
        match &array[i] {
            Json::Str(s) => {
                if *s == neo {
                    assert(is_version_flag(array@[i as int]));
                    modloader = ModLoader::NeoForge(read_value_after(array, i));
                } else if *s == forge {
                    assert(is_version_flag(array@[i as int]));
                    modloader = ModLoader::Forge(read_value_after(array, i));
                } else if *s == mc {
                    assert(is_version_flag(array@[i as int]));
                    mc_version = read_value_after(array, i);
                }
            },
            _ => {},
        }
    }
    (mc_version, modloader)
}

/// Whether a game argument is the string `flag`.
pub open spec fn is_arg(arg: Json, flag: Seq<char>) -> bool {
    arg matches Json::Str(s) && s@ == flag
}

/// Whether a game argument names the mod loader.
pub open spec fn is_loader_flag(arg: Json) -> bool {
    is_arg(arg, neoforge_flag()) || is_arg(arg, forge_flag())
}

proof fn lemma_flags_differ()
    ensures
        neoforge_flag() != forge_flag(),
        neoforge_flag() != mc_flag(),
        forge_flag() != mc_flag(),
{
    reveal_strlit("--fml.neoForgeVersion");
    reveal_strlit("--fml.forgeVersion");
    reveal_strlit("--fml.mcVersion");
    assert(neoforge_flag().len() == 21);
    assert(forge_flag().len() == 18);
    assert(mc_flag().len() == 15);
}

/// One more game argument read: a `--fml.mcVersion` sets the Minecraft
/// version, a loader flag the loader, anything else changes nothing.
proof fn lemma_scan_step(
    args: Seq<Json>,
    n: nat,
    mc: Seq<char>,
    loader: (LoaderKind, Seq<char>),
)
    requires
        n < args.len(),
    ensures
        scan_args(args, n + 1, mc, loader).0 == if is_arg(args[n as int], mc_flag()) {
            value_after(args, n as int)
        } else {
            scan_args(args, n, mc, loader).0
        },
        scan_args(args, n + 1, mc, loader).1 == if is_arg(args[n as int], neoforge_flag()) {
            (LoaderKind::NeoForge, value_after(args, n as int))
        } else if is_arg(args[n as int], forge_flag()) {
            (LoaderKind::Forge, value_after(args, n as int))
        } else {
            scan_args(args, n, mc, loader).1
        },
{
    lemma_flags_differ();
    assert(((n + 1) as nat - 1) as nat == n);
}

/// Reading the first `n` game arguments from `mc`: the Minecraft version is
/// the one after the last `--fml.mcVersion` among them, or `mc` when there is
/// none.
proof fn lemma_scan_reads_last_mc_flag(
    args: Seq<Json>,
    n: nat,
    mc: Seq<char>,
    loader: (LoaderKind, Seq<char>),
)
    requires
        n <= args.len(),
    ensures
        forall|i: int|
            0 <= i < n && #[trigger] is_arg(args[i], mc_flag()) && (forall|j: int|
                i < j < n ==> !is_arg(args[j], mc_flag())) ==> scan_args(args, n, mc, loader).0
                == value_after(args, i),
        (forall|j: int| 0 <= j < n ==> !is_arg(args[j], mc_flag())) ==> scan_args(
            args,
            n,
            mc,
            loader,
        ).0 == mc,
    decreases n,
{
    if n > 0 {
        let m = (n - 1) as nat;
        lemma_scan_reads_last_mc_flag(args, m, mc, loader);
        lemma_scan_step(args, m, mc, loader);
        assert forall|i: int|
            0 <= i < n && #[trigger] is_arg(args[i], mc_flag()) && (forall|j: int|
                i < j < n ==> !is_arg(args[j], mc_flag())) implies scan_args(args, n, mc, loader).0
            == value_after(args, i) by {
            if i < m {
                assert(!is_arg(args[m as int], mc_flag()));
            }
        }
        if forall|j: int| 0 <= j < n ==> !is_arg(args[j], mc_flag()) {
            assert(!is_arg(args[m as int], mc_flag()));
        }
    }
}

/// The loader that a loader flag names.
pub open spec fn flag_loader(arg: Json) -> LoaderKind {
    if is_arg(arg, neoforge_flag()) {
        LoaderKind::NeoForge
    } else {
        LoaderKind::Forge
    }
}

/// Reading the first `n` game arguments from `loader`: the loader is the one
/// of the last loader flag among them, at the version after it, or `loader`
/// when there is none.
proof fn lemma_scan_reads_last_loader_flag(
    args: Seq<Json>,
    n: nat,
    mc: Seq<char>,
    loader: (LoaderKind, Seq<char>),
)
    requires
        n <= args.len(),
    ensures
        forall|i: int|
            0 <= i < n && #[trigger] is_loader_flag(args[i]) && (forall|j: int|
                i < j < n ==> !is_loader_flag(args[j])) ==> scan_args(args, n, mc, loader).1 == (
                flag_loader(args[i]),
                value_after(args, i),
            ),
        (forall|j: int| 0 <= j < n ==> !is_loader_flag(args[j])) ==> scan_args(
            args,
            n,
            mc,
            loader,
        ).1 == loader,
    decreases n,
{
    if n > 0 {
        let m = (n - 1) as nat;
        lemma_scan_reads_last_loader_flag(args, m, mc, loader);
        lemma_scan_step(args, m, mc, loader);
        let now = scan_args(args, n, mc, loader).1;
        let before = scan_args(args, m, mc, loader).1;
        assert(!is_loader_flag(args[m as int]) ==> now == before);
        assert forall|i: int|
            0 <= i < n && #[trigger] is_loader_flag(args[i]) && (forall|j: int|
                i < j < n ==> !is_loader_flag(args[j])) implies now == (
                flag_loader(args[i]),
                value_after(args, i),
            ) by {
            if i < m {
                assert(!is_loader_flag(args[m as int]));
                assert(forall|j: int| i < j < m ==> !is_loader_flag(args[j]));
            }
        }
        if forall|j: int| 0 <= j < n ==> !is_loader_flag(args[j]) {
            assert(!is_loader_flag(args[m as int]));
        }
    }
}

/// The Minecraft version that a version file names is the one after the
/// last `--fml.mcVersion` of its game arguments, or its `assets` when no such
/// flag is there; its mod loader is that of the last `--fml.neoForgeVersion`
/// or `--fml.forgeVersion`, at the version after that flag, or Forge "-1"
/// when there is none. Game arguments that are not strings, wherever they
/// stand, change nothing of this; a value that is not a string reads as "-1".
pub proof fn lemma_versions_follow_last_flags(json: Json, args: Seq<Json>)
    requires
        game_args(json) == Some(args),
    ensures
        forall|i: int|
            0 <= i < args.len() && #[trigger] is_arg(args[i], mc_flag()) && (forall|j: int|
                i < j < args.len() ==> !is_arg(args[j], mc_flag())) ==> instance_versions(json).0
                == match args[i + 1] {
                Json::Str(v) => v@,
                _ => "-1"@,
            },
        (forall|j: int| 0 <= j < args.len() ==> !is_arg(args[j], mc_flag()))
            ==> instance_versions(json).0 == match json.member("assets"@) {
            Some(Json::Str(s)) => s@,
            _ => "-1"@,
        },
        forall|i: int|
            0 <= i < args.len() && #[trigger] is_arg(args[i], neoforge_flag()) && (forall|j: int|
                i < j < args.len() ==> !is_loader_flag(args[j])) ==> instance_versions(json).1 == (
                LoaderKind::NeoForge,
                match args[i + 1] {
                    Json::Str(v) => v@,
                    _ => "-1"@,
                },
            ),
        forall|i: int|
            0 <= i < args.len() && #[trigger] is_arg(args[i], forge_flag()) && (forall|j: int|
                i < j < args.len() ==> !is_loader_flag(args[j])) ==> instance_versions(json).1 == (
                LoaderKind::Forge,
                match args[i + 1] {
                    Json::Str(v) => v@,
                    _ => "-1"@,
                },
            ),
        (forall|j: int| 0 <= j < args.len() ==> !is_loader_flag(args[j])) ==> instance_versions(
            json,
        ).1 == (LoaderKind::Forge, "-1"@),
{
    let mc = assets_version(json);
    let loader = (LoaderKind::Forge, unknown());
    let r = scan_args(args, args.len(), mc, loader);
    assert(instance_versions(json) == r);
    lemma_flags_differ();
    lemma_scan_reads_last_mc_flag(args, args.len(), mc, loader);
    lemma_scan_reads_last_loader_flag(args, args.len(), mc, loader);
    assert forall|i: int|
        0 <= i < args.len() && #[trigger] is_arg(args[i], neoforge_flag()) && (forall|j: int|
            i < j < args.len() ==> !is_loader_flag(args[j])) implies r.1 == (
        LoaderKind::NeoForge,
        value_after(args, i),
    ) by {
        assert(is_loader_flag(args[i]));
    }
    assert forall|i: int|
        0 <= i < args.len() && #[trigger] is_arg(args[i], forge_flag()) && (forall|j: int|
            i < j < args.len() ==> !is_loader_flag(args[j])) implies r.1 == (
        LoaderKind::Forge,
        value_after(args, i),
    ) by {
        assert(is_loader_flag(args[i]));
        assert(!is_arg(args[i], neoforge_flag()));
    }
}

/// A version file without game arguments names the Minecraft version of its
/// `assets` and the loader Forge "-1".
pub proof fn lemma_versions_without_game_args(json: Json)
    requires
        game_args(json) is None,
    ensures
        instance_versions(json) == (match json.member("assets"@) {
            Some(Json::Str(s)) => s@,
            _ => "-1"@,
        }, (LoaderKind::Forge, "-1"@)),
{
}

/// Why a game instance cannot be pinned.
#[derive(Debug, PartialEq, Eq)]
pub enum PinError {
    /// The version file names no Minecraft version.
    NoMinecraftVersion,
    /// The instance is for another Minecraft version (the one it is for).
    MinecraftVersionMismatch(String),
    /// The instance has another mod loader (the one it has).
    ModLoaderMismatch(ModLoader),
    /// The version file is not JSON, or cannot be read as a version file.
    Unreadable,
}

/// What pinning the modpack to the instance in `dir`, whose version file
/// is `json`, gives: the instance when the file names the modpack's
/// Minecraft version and its mod loader at its version; otherwise the first
/// of these that fails, with what the file names instead.
pub open spec fn pin_outcome(
    modpack: ModPack,
    json: Json,
    dir: Seq<char>,
    r: Result<GameInstance, PinError>,
) -> bool {
    let (mc, loader) = instance_versions(json);
    &&& mc == unknown() ==> r == Err::<GameInstance, PinError>(PinError::NoMinecraftVersion)
    &&& (mc != unknown() && mc != modpack.spec_mc_version()) ==> (r matches Err(
        PinError::MinecraftVersionMismatch(found),
    ) && found@ == mc)
    &&& (mc != unknown() && mc == modpack.spec_mc_version() && loader != modpack.spec_modloader())
        ==> (r matches Err(PinError::ModLoaderMismatch(found)) && found@ == loader)
    &&& (mc != unknown() && mc == modpack.spec_mc_version() && loader == modpack.spec_modloader())
        ==> (r matches Ok(inst) && inst.spec_dir() == dir)
}

/// Pins the modpack to the game instance in `dir`, whose version file is
/// `json`. The instance must be for the modpack's Minecraft version and
/// have its mod loader at its version.
pub fn pin_instance(modpack: &ModPack, json: &Json, dir: String) -> (r: Result<
    GameInstance,
    PinError,
>)
    requires
        version_json_readable(*json),
    ensures
        pin_outcome(*modpack, *json, dir@, r),
{
    let (mc_version, modloader) = read_version_json(json);
    if mc_version == String::from_str("-1") {
        return Err(PinError::NoMinecraftVersion);
    }
    if !(mc_version == *modpack.mc_version()) {
        return Err(PinError::MinecraftVersionMismatch(mc_version));
    }
    if !modloader.equals(modpack.modloader()) {
        return Err(PinError::ModLoaderMismatch(modloader));
    }
    Ok(GameInstance::new(dir))
}

/// Pins the modpack to the game instance in `dir`, whose version file
/// holds `text`. `Unreadable` when the text is not JSON or cannot be read as
/// a version file; otherwise as `pin_instance` on the document.
pub fn pin_from_version_text(modpack: &ModPack, text: &str, dir: String) -> (r: Result<
    GameInstance,
    PinError,
>)
    ensures
        (spec_parse_json(text@) matches Some(j) && version_json_readable(j)) ==> pin_outcome(
            *modpack,
            spec_parse_json(text@)->0,
            dir@,
            r,
        ),
        !(spec_parse_json(text@) matches Some(j) && version_json_readable(j)) ==> r == Err::<
            GameInstance,
            PinError,
        >(PinError::Unreadable),
{
    match parse_json(text) {
        Some(json) => {
            if check_version_json(&json) {
                pin_instance(modpack, &json, dir)
            } else {
                Err(PinError::Unreadable)
            }
        },
        None => Err(PinError::Unreadable),
    }
}

/// The names of the version files to look for in an instance's folder, in
/// order: one named after the modpack, then one named after its Minecraft
/// version.
pub fn version_json_names(modpack: &ModPack) -> (r: (String, String))
    ensures
        r.0@ == modpack.spec_name() + ".json"@,
        r.1@ == modpack.spec_mc_version() + ".json"@,
{
    let a = modpack.name().clone().concat(".json");
    let b = modpack.mc_version().clone().concat(".json");
    (a, b)
}

} // verus!
