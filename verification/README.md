# craft

The core of Craft, a data-driven game engine: scenes, behaviors and
resources are JSON documents, and the engine loads, validates, evaluates,
hot-reloads and replays them. The library is written in Verus; each public
function carries a contract, and the laws the engine keeps (deterministic
state hashes, signals resolved on the next tick, hot reload reaching the new
scene, and others) are stated as proof functions.

Layout:

- `src/` — the verified library. `json`, `strmap` and `text` model documents,
  ordered string maps and strings; `load`, `load_actions`, `load_scene` and
  `validate` decode and check scene documents; `evaluate`, `evaluator` and
  `expression` evaluate behaviors into commands and apply them; `engine`
  holds the tick loop; `signal`, `system` and `resource` are the bus, the
  systems and the resource registry; `hot_reload`, `replay`, `canonical`,
  `state_hash` and `determinism` cover reloads, recordings and the state
  hash; `modules`
  handles Lua module lockfiles; `schema`, `lint`, `render` and `terminal`
  the remaining tooling; `games` holds the two sample games.
- `tests/` — tests run against the compiled library.
- `app/` — the unverified edges: reading scenes, resources, project
  manifests and lockfiles from disk, watching scene files for hot reload,
  a Lua host for scripts, and printing frames.

Calls into serde_json, sha2 and the standard library go through small
trusted wrappers whose contracts state what those crates document.
