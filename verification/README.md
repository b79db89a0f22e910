# saya_core

The plugin-management core of the Saya desktop application, verified with
Verus.

## Layout

- `src/` — the verified library.
  - `text.rs`: string helpers with specifications (substring search,
    splitting, joining, decimal formatting) and the trusted lowercase
    conversion.
  - `plugins/mod.rs`: plugin manifests, `validate_manifest`, and the
    network-isolation scanner for plugin user interfaces.
  - `plugins/registry.rs`: identifier validation, the SQL statements planned
    for plugin item tables and settings, and the decisions of the AI
    classification action.
  - `plugins/placeholders.rs`: the proof that every planned statement binds
    exactly one argument per `?` mark.
  - `plugins/marketplace.rs`: the Ed25519-signed plugin registry (through
    `hex`, `ed25519-dalek`, and `serde_json` for the signed text), GitHub
    repository URLs, and the root directory of a zipball (through `zip`).
  - `plugins/hot_reload.rs`: which plugin a file-system change belongs to.
  - `llm.rs`: completion requests per provider, reply extraction, and the
    reading of classification replies.
  - `db.rs`: the schema migration decision.
- `app/` — the unverified shell: SQLite access, HTTP, the file system, the
  file watcher, JSON (de)serialisation into the library's types, and the
  application commands, all calling into the library for their decisions.
- `tests/` — tests of the library on concrete values.
