# protonctx

Launch executables inside a Steam game's Proton context: list the installed
Steam games across all library folders, show the compatibility tool each one
runs with, and run an arbitrary `.exe` or a built-in Wine tool (`winecfg`,
`taskmgr`, `explorer`, `regedit`) inside a selected game's Proton prefix.

The library under `src/` is written in Verus; every function in it is
verified against its `requires`/`ensures` contract.

## Layout

- `src/text.rs`, `src/paths.rs`, `src/order.rs` — character-level string
  helpers, `Path`-style joining and component comparison, and a stable sort
  with a proof that its result is unique.
- `src/vdf.rs` — Steam's text VDF documents, parsed by `steam-vdf-parser`
  and held as a plain tree.
- `src/steam/` — discovery: locating Steam, `libraryfolders.vdf`,
  `appmanifest_*.acf`, `config.vdf`'s `CompatToolMapping`, the Proton
  directory of a prefix, and the assembly of the sorted game list. The
  functions take what the file system says (file contents, which paths
  exist) as arguments.
- `src/launcher/` — the `proton runinprefix` command for a game, directly or
  through `flatpak-spawn --host`.
- `src/flatpak.rs`, `src/config.rs` — sandbox detection, document-portal
  paths, XDG locations and the lossless encoding of the remembered directory.
- `src/app_backend.rs` — the state behind the games table: selection, sorting,
  background loads and overlapping launches.
- `app/` — the program: environment, file system and process I/O, JSON
  persistence, and a terminal front end over the games table.
- `tests/` — tests of the library on concrete values.
