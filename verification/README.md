# carton

A Minecraft modpack file manager. A project has three profiles: `common`
(files for every build), `dev` (development only) and `release` (release
only). Mods are kept as small TOML files that say where to get them
(Curseforge, Modrinth or a URL), and a profile is pushed to a pinned game
instance, which downloads its mods.

Layout:

- `src/` — the library, verified with Verus:
  - `modpack.rs`: the mod loader, the modpack settings, the pinned instance;
  - `profile.rs`: the profiles and how the command line names them;
  - `resource.rs`: mod sources and the `%field%field%field` notation;
  - `pin.rs`: reading a game instance's version file and checking it
    against the modpack;
  - `push.rs`: what a push keeps of an instance, which files describe mods,
    how a download is cut into byte ranges;
  - `download.rs`: the name of a downloaded file, Modrinth file records;
  - `search.rs`: Modrinth search queries and answers;
  - `mc.rs`: the Minecraft versions a modpack can be made for;
  - `number.rs`: reading and writing whole numbers;
  - `json.rs`: JSON documents as plain values, read from text by serde_json;
  - `text.rs`: character-level helpers.
- `app/` — the `carton` command: terminal, files, network, TOML and JSON.
- `tests/` — tests of the library.
