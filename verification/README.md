# gitcat_plugins

The plugin system of GitCat: declarative plugin manifests, the registry of
installed plugins, the placeholder grammar of plugin command templates, and
Tama skins. The logic is written in Verus and proved against its contracts;
the file system, the platform shell and the Tauri commands sit around it.

- `src/` — the verified library.
  - `placeholder` — POSIX single quoting, `{token}` expansion (one pass, values
    never rescanned) and the `cmd.exe` metacharacter guard, with the laws that a
    quoted value is one inert shell word and that expansion is single-pass.
  - `ansi` — removal of ANSI escape sequences from command output.
  - `registry` — manifest types; install, enable/disable, remove and lookup,
    with the laws relating them.
  - `entries` — lists of `(key, value)` entries used as maps, each key at most
    once: map insertion and building a map from pairs read in order.
  - `manifest` — manifest well-formedness and the size limits on manifest files.
  - `command` — the script a command runs as, where it runs, and its result.
  - `skin` — which pose assets may be loaded, the size cap, `data:` URIs and
    assembling a skin.
  - `store` — the registry file's names.
  - `text` — characters, whitespace, decimal and `Debug` rendering of text.
- `tests/` — tests of the library on concrete values.
- `app/` — JSON forms of the types, file access, process execution and the
  Tauri commands.
