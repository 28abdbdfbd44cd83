# codex_switch

codexSwitch runs a second instance of the Codex desktop app on another model
provider (Z.ai, OpenRouter, or one of your own) and hands conversations over
to it. Unofficial; not affiliated with or endorsed by OpenAI.

## Layout

- `src/` — the library, verified with Verus: the tool's decisions and the
  text it computes (configuration files, scripts, the state file edit, the
  widened model catalog, what is printed), with contracts:
  - `config` — defaults, the configuration file's values over them, providers
    by name;
  - `sidecar` — the managed block of the sidecar's `config.toml` (finding it,
    rewriting it, reading it back), which process is the sidecar, what a
    launch does;
  - `setup` — writing and completing the sidecar's `config.toml`;
  - `catalog` — how a missing model catalog is made;
  - `handoff`, `appserver` — the choices of a handoff and of the app-server
    client;
  - `threads`, `rollout`, `projects` — thread labels and search patterns, fork
    chains, token counts, copies, project assignment;
  - `windows` — the PowerShell scripts (Base64 of UTF-16LE, quoting);
  - `ui`, `text`, `paths` — what is printed, and the string and path helpers.
- `app/` — the command-line program: arguments, files, processes, the
  app-server connection, prompts. It hands plain values to the library.
- `tests/` — tests of the library.

The outside crates the library relies on (`toml`, `serde_json`, `sha2`,
`dirs`) are called through a few small trusted functions whose contracts name
what they return. What stays in `app/` is input and output, waiting, and the
one figure that needs a float (the size of the copied files).
