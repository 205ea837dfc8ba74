//! The modpack project: its mod loader, its settings and the game instance
//! it is pinned to.
use vstd::prelude::*;

verus! {

/// The four mod loaders a modpack can be built on.
#[derive(PartialEq, Eq, Structural, Clone, Copy, Debug)]
pub enum LoaderKind {
    Forge,
    NeoForge,
    Fabric,
    Quilt,
}

/// A mod loader together with the version the modpack uses.
#[derive(Debug, PartialEq, Eq)]
pub enum ModLoader {
    Forge(String),
    NeoForge(String),
    Fabric(String),
    Quilt(String),
}

/// The display name of a loader kind.
pub open spec fn loader_kind_name(k: LoaderKind) -> Seq<char> {
    match k {
        LoaderKind::Forge => "Forge"@,
        LoaderKind::NeoForge => "NeoForge"@,
        LoaderKind::Fabric => "Fabric"@,
        LoaderKind::Quilt => "Quilt"@,
    }
}

/// The name a loader kind has among the categories of the Modrinth API.
pub open spec fn loader_kind_category(k: LoaderKind) -> Seq<char> {
    match k {
        LoaderKind::Forge => "forge"@,
        LoaderKind::NeoForge => "neoforge"@,
        LoaderKind::Fabric => "fabric"@,
        LoaderKind::Quilt => "quilt"@,
    }
}

/// The loader kind chosen by an answer to the prompt
/// "1: Forge 2: Neoforge 3: Fabric 4: Quilt"; `None` for any other answer.
pub open spec fn loader_choice(s: Seq<char>) -> Option<LoaderKind> {
    if s == "1"@ {
        Some(LoaderKind::Forge)
    } else if s == "2"@ {
        Some(LoaderKind::NeoForge)
    } else if s == "3"@ {
        Some(LoaderKind::Fabric)
    } else if s == "4"@ {
        Some(LoaderKind::Quilt)
    } else {
        None
    }
}

impl View for ModLoader {
    type V = (LoaderKind, Seq<char>);

    open spec fn view(&self) -> (LoaderKind, Seq<char>) {
        match self {
            ModLoader::Forge(v) => (LoaderKind::Forge, v@),
            ModLoader::NeoForge(v) => (LoaderKind::NeoForge, v@),
            ModLoader::Fabric(v) => (LoaderKind::Fabric, v@),
            ModLoader::Quilt(v) => (LoaderKind::Quilt, v@),
        }
    }
}

impl LoaderKind {
    /// The display name of this kind: "Forge", "NeoForge", "Fabric" or "Quilt".
    pub fn name(&self) -> (r: &'static str)
        ensures
            r@ == loader_kind_name(*self),
    {
        match self {
            LoaderKind::Forge => "Forge",
            LoaderKind::NeoForge => "NeoForge",
            LoaderKind::Fabric => "Fabric",
            LoaderKind::Quilt => "Quilt",
        }
    }
}

impl ModLoader {
    /// A loader of kind `kind` at version `version`.
    pub fn from_kind(kind: LoaderKind, version: String) -> (r: ModLoader)
        ensures
            r@ == (kind, version@),
    {
        match kind {
            LoaderKind::Forge => ModLoader::Forge(version),
            LoaderKind::NeoForge => ModLoader::NeoForge(version),
            LoaderKind::Fabric => ModLoader::Fabric(version),
            LoaderKind::Quilt => ModLoader::Quilt(version),
        }
    }

    /// Which loader this is.
    pub fn kind(&self) -> (r: LoaderKind)
        ensures
            r == self@.0,
    {
        match self {
            ModLoader::Forge(_) => LoaderKind::Forge,
            ModLoader::NeoForge(_) => LoaderKind::NeoForge,
            ModLoader::Fabric(_) => LoaderKind::Fabric,
            ModLoader::Quilt(_) => LoaderKind::Quilt,
        }
    }

    /// The display name of the loader: "Forge", "NeoForge", "Fabric" or "Quilt".
    pub fn get_name(&self) -> (r: &'static str)
        ensures
            r@ == loader_kind_name(self@.0),
    {
        match self {
            ModLoader::Forge(_) => "Forge",
            ModLoader::NeoForge(_) => "NeoForge",
            ModLoader::Fabric(_) => "Fabric",
            ModLoader::Quilt(_) => "Quilt",
        }
    }

    /// The loader's name in lower case, as Modrinth names its categories.
    pub fn get_lowercase_name(&self) -> (r: &'static str)
        ensures
            r@ == loader_kind_category(self@.0),
    {
        match self {
            ModLoader::Forge(_) => "forge",
            ModLoader::NeoForge(_) => "neoforge",
            ModLoader::Fabric(_) => "fabric",
            ModLoader::Quilt(_) => "quilt",
        }
    }

    /// The version of the loader.
    pub fn get_version(&self) -> (r: &String)
        ensures
            r@ == self@.1,
    {
        match self {
            ModLoader::Forge(v) => v,
            ModLoader::NeoForge(v) => v,
            ModLoader::Fabric(v) => v,
            ModLoader::Quilt(v) => v,
        }
    }

    /// Whether two loaders are the same loader at the same version.
    pub fn equals(&self, other: &ModLoader) -> (r: bool)
        ensures
            r == (self@ == other@),
    {
        if !(self.kind() == other.kind()) {
            return false;
        }
        let same_version = *self.get_version() == *other.get_version();
        if !same_version {
            return false;
        }
        true
    }

    /// The same loader at another version.
    pub fn with_version(&self, version: String) -> (r: ModLoader)
        ensures
            r@ == (self@.0, version@),
    {
        ModLoader::from_kind(self.kind(), version)
    }

    /// A copy of this loader.
    pub fn duplicate(&self) -> (r: ModLoader)
        ensures
            r@ == self@,
    {
        ModLoader::from_kind(self.kind(), self.get_version().clone())
    }
}

/// The loader kind for an answer to the loader prompt ("1" to "4"),
/// or `None` when the answer names no loader.
pub fn modloader_kind(choice: &str) -> (r: Option<LoaderKind>)
    ensures
        r == loader_choice(choice@),
{
    let c = choice.to_owned();
    if c == String::from_str("1") {
        Some(LoaderKind::Forge)
    } else if c == String::from_str("2") {
        Some(LoaderKind::NeoForge)
    } else if c == String::from_str("3") {
        Some(LoaderKind::Fabric)
    } else if c == String::from_str("4") {
        Some(LoaderKind::Quilt)
    } else {
        None
    }
}

/// The loader chosen by the answer `modloader` to the loader prompt, at the
/// version `version` that was asked for it; `None` when the answer names no
/// loader.
pub fn match_modloader(modloader: String, version: String) -> (r: Option<ModLoader>)
    ensures
        r is Some <==> loader_choice(modloader@) is Some,
        r matches Some(l) ==> l@ == (loader_choice(modloader@)->0, version@),
{
    match modloader_kind(modloader.as_str()) {
        Some(kind) => Some(ModLoader::from_kind(kind, version)),
        None => None,
    }
}

/// The settings of a modpack project, as kept in its `modpack.toml`.
pub struct ModPack {
    name: String,
    modpack_version: String,
    mc_version: String,
    modloader: ModLoader,
}

/// The version every new modpack starts at.
pub open spec fn initial_modpack_version() -> Seq<char> {
    "0.1.0"@
}

impl ModPack {
    pub closed spec fn spec_name(&self) -> Seq<char> {
        self.name@
    }

    pub closed spec fn spec_modpack_version(&self) -> Seq<char> {
        self.modpack_version@
    }

    pub closed spec fn spec_mc_version(&self) -> Seq<char> {
        self.mc_version@
    }

    pub closed spec fn spec_modloader(&self) -> (LoaderKind, Seq<char>) {
        self.modloader@
    }

    /// A new modpack: version "0.1.0", for Minecraft `mc_version` on `modloader`.
    pub fn new(name: String, mc_version: String, modloader: ModLoader) -> (r: ModPack)
        ensures
            r.spec_name() == name@,
            r.spec_modpack_version() == initial_modpack_version(),
            r.spec_mc_version() == mc_version@,
            r.spec_modloader() == modloader@,
    {
        ModPack { name, modpack_version: String::from_str("0.1.0"), mc_version, modloader }
    }

    /// A modpack with every setting given.
    pub fn from_parts(
        name: String,
        modpack_version: String,
        mc_version: String,
        modloader: ModLoader,
    ) -> (r: ModPack)
        ensures
            r.spec_name() == name@,
            r.spec_modpack_version() == modpack_version@,
            r.spec_mc_version() == mc_version@,
            r.spec_modloader() == modloader@,
    {
        ModPack { name, modpack_version, mc_version, modloader }
    }

    pub fn name(&self) -> (r: &String)
        ensures
            r@ == self.spec_name(),
    {
        &self.name
    }

    pub fn modpack_version(&self) -> (r: &String)
        ensures
            r@ == self.spec_modpack_version(),
    {
        &self.modpack_version
    }

    pub fn mc_version(&self) -> (r: &String)
        ensures
            r@ == self.spec_mc_version(),
    {
        &self.mc_version
    }

    pub fn modloader(&self) -> (r: &ModLoader)
        ensures
            r@ == self.spec_modloader(),
    {
        &self.modloader
    }

    /// Replaces the Minecraft version; nothing else changes.
    pub fn set_mc_version(&mut self, mc_version: String)
        ensures
            final(self).spec_mc_version() == mc_version@,
            final(self).spec_name() == old(self).spec_name(),
            final(self).spec_modpack_version() == old(self).spec_modpack_version(),
            final(self).spec_modloader() == old(self).spec_modloader(),
    {
        self.mc_version = mc_version;
    }

    /// Replaces the mod loader; nothing else changes.
    pub fn set_modloader(&mut self, modloader: ModLoader)
        ensures
            final(self).spec_modloader() == modloader@,
            final(self).spec_name() == old(self).spec_name(),
            final(self).spec_modpack_version() == old(self).spec_modpack_version(),
            final(self).spec_mc_version() == old(self).spec_mc_version(),
    {
        self.modloader = modloader;
    }

    /// Keeps the mod loader and replaces its version; nothing else changes.
    pub fn set_modloader_version(&mut self, version: String)
        ensures
            final(self).spec_modloader() == (old(self).spec_modloader().0, version@),
            final(self).spec_name() == old(self).spec_name(),
            final(self).spec_modpack_version() == old(self).spec_modpack_version(),
            final(self).spec_mc_version() == old(self).spec_mc_version(),
    {
        let l = self.modloader.with_version(version);
        self.modloader = l;
    }
}

/// The game instance a modpack is pinned to, as kept in `instance.toml`.
pub struct GameInstance {
    dir: String,
}

impl GameInstance {
    pub closed spec fn spec_dir(&self) -> Seq<char> {
        self.dir@
    }

    pub fn new(dir: String) -> (r: GameInstance)
        ensures
            r.spec_dir() == dir@,
    {
        GameInstance { dir }
    }

    /// The directory of the instance; empty when no instance is pinned.
    pub fn dir(&self) -> (r: &String)
        ensures
            r@ == self.spec_dir(),
    {
        &self.dir
    }

    /// Whether a game instance is pinned: the directory is not empty.
    pub fn is_pinned(&self) -> (r: bool)
        ensures
            r == (self.spec_dir().len() > 0),
    {
        let empty = String::new();
        proof {
            if self.dir@.len() == 0 {
                assert(self.dir@ =~= empty@);
            }
        }
        !(self.dir == empty)
    }
}

/// What to change, for each answer to the prompt of `modify`.
#[derive(PartialEq, Eq, Structural, Clone, Copy, Debug)]
pub enum ModifyChoice {
    McVersion,
    ModLoader,
    ModLoaderVersion,
    Cancel,
}

/// Answer 1 changes the Minecraft version, 2 the mod loader, 3 the mod
/// loader's version; any other number cancels.
pub fn modify_choice(n: i64) -> (r: ModifyChoice)
    ensures
        n == 1 ==> r == ModifyChoice::McVersion,
        n == 2 ==> r == ModifyChoice::ModLoader,
        n == 3 ==> r == ModifyChoice::ModLoaderVersion,
        (n != 1 && n != 2 && n != 3) ==> r == ModifyChoice::Cancel,
{
    if n == 1 {
        ModifyChoice::McVersion
    } else if n == 2 {
        ModifyChoice::ModLoader
    } else if n == 3 {
        ModifyChoice::ModLoaderVersion
    } else {
        ModifyChoice::Cancel
    }
}


/// `s` with each ASCII capital letter made small.
pub open spec fn ascii_lowercase(s: Seq<char>) -> Seq<char> {
    s.map_values(|c: char| if 'A' <= c && c <= 'Z' { ((c as u32) + 32) as char } else { c })
}

/// The Modrinth category of every loader is its display name in lower case,
/// so the four loaders have four different categories.
pub proof fn lemma_category_is_lowercase_name(k: LoaderKind)
    ensures
        loader_kind_category(k) == ascii_lowercase(loader_kind_name(k)),
{
    reveal_strlit("Forge");
    reveal_strlit("forge");
    reveal_strlit("NeoForge");
    reveal_strlit("neoforge");
    reveal_strlit("Fabric");
    reveal_strlit("fabric");
    reveal_strlit("Quilt");
    reveal_strlit("quilt");
    assert(loader_kind_category(k) =~= ascii_lowercase(loader_kind_name(k)));
}

/// Two different loaders never share a Modrinth category.
pub proof fn lemma_categories_distinct(a: LoaderKind, b: LoaderKind)
    ensures
        a != b ==> loader_kind_category(a) != loader_kind_category(b),
{
    reveal_strlit("forge");
    reveal_strlit("neoforge");
    reveal_strlit("fabric");
    reveal_strlit("quilt");
    assert("forge"@.len() == 5);
    assert("neoforge"@.len() == 8);
    assert("fabric"@.len() == 6);
    assert("quilt"@.len() == 5);
    assert("forge"@[0] != "quilt"@[0]);
}

} // verus!
