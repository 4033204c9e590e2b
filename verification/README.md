# envhive

The core of EnvHive, a manager of development tool versions (Node.js, Go,
Java, … through Lua plugins), written in Verus. The library's functions
carry contracts and are proved against them, except a few trusted wrappers
around outside calls whose contracts are believed, not proved: the digests
of the `sha2`, `sha1`, `md-5` and `hex` crates, and from std `String::push`,
`std::path::MAIN_SEPARATOR` and `char::escape_debug`.

## Layout

- `src/` — the verified library
  - `version`, `order`, `sort`, `resolver` — version ordering, sorting and
    resolution of a query (`lts`, `latest`, prefixes) against a version list
  - `mirror` — download-mirror rules: rewriting a URL, the choice per tool
  - `registry/` — switching package registries: npm and pip (`key=value`
    files), cargo (`config.toml`), maven (`settings.xml`), NuGet
    (`NuGet.Config`), go (`GOPROXY`), and the download proxy
  - `env`, `user_path`, `strmap` — environment variables and `PATH`
    composition, with path equivalence per host style
  - `checksum` — `sha256:` / `sha512:` / `sha1:` / `md5:` checks over the
    digests of the `sha2`, `sha1`, `md-5` and `hex` crates
  - `install_flow`, `global_flow` — the install and global-switch sequences
    as state machines: the caller performs each step and reports back
  - `plugin_def` — a Lua plugin's definition from what its script declares
    (the `TOOL` table and the required hooks), with its checks and fallbacks
  - `junction` — the reparse buffer that makes a directory a Windows junction
  - `tool`, `plugin`, `settings`, `usage`, `overview`, `cli`, `util`, `error`
    — tool descriptions, plugin listing, configuration updates, usage
    statistics, log and environment pages, project files, errors
  - `term`, `tui_*` — the terminal UI's decisions: key and mouse handling,
    selection moves, messages, actions, row texts and cell widths
  - `text` — the string operations the rest is written with
- `tests/` — tests of the library
- `app/` — a command-line program around the library: file and process
  input/output, JSON storage of the usage records

## Laws

Besides each function's contract, `src/` proves properties that relate
several calls, among them: reading a registry configuration back after a
preset was merged in gives the preset's address (npm, pip, cargo, maven,
NuGet), and merging the same cargo mirror a second time changes nothing
more; the version order is a total order; sorting is a stable
permutation, and sorting two lists that hold the same versions gives
lists that compare equal position by position; adding a path entry twice changes nothing; a cut text fits its
cells; moving a selection back undoes the move.
