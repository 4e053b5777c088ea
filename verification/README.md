# nora_upkeep

The upkeep of an artifact registry, verified with Verus: which versions a
retention rule deletes, which stored objects garbage collection sweeps, which
cached files give way to a size cap, when these passes run, and how a hosted rpm
repository describes itself.

The library decides; it reads and writes nothing. Storage is handed to it as
listings and tables, and it hands back what to delete, what to write, in which
order, and what follows each outcome.

- `src/` — the library.
  - Text, ordering, grouping: `text`, `order`, `grouping`, `versions`, `glob`,
    `table`.
  - Outside formats: `json` (through `serde_json`), `digest` (through `sha2`,
    `hex` and `flate2`), `rpm_package` (through `rpm`).
  - Retention: `retention` plans one group, `collect` and `sidecar` find the
    groups, `retention_run` plans a whole run.
  - Garbage collection: `docker_gc` and `registry_gc` find orphans, `phantoms`
    cleans package metadata, `proxy_cache` evicts, `gc` puts a run together,
    `sweep` says what a run leaves behind.
  - Hosted rpm repositories: `rpm_record` describes a package, `xml`, `repodata`
    and `repomd` the repository, `rpm_repo` decides requests, `changes`
    says what an upload or a deletion leaves behind, `reindex` reconciles a repository with
    storage.
  - `cleanup` schedules the passes.
- `tests/` — the library at work on concrete values and on storage in memory.
- `app/` — storage, locks, HTTP, metrics and the clock around the library.
