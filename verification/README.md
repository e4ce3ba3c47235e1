# witcherscript_ide

The project model of the WitcherScript IDE's language server, verified with
Verus: script contents and their manifests, the graph of dependencies between
contents, source trees, masks over local paths, the server's configuration,
buffered diagnostics, the answers to a few custom requests and what the
server does after files are created, deleted, renamed or saved.

- `src/` is the verified library. Where the logic needs the file system, it
  takes what was read as plain values (probes of directories, scan results,
  walks of script roots) and hands back plain values; the content graph is
  built in steps, between which the caller does the reading that the graph
  asks for.
- `app/` is a small command line front that does that reading: it scans
  directories, reads manifests with the TOML and JSON readers, drives the
  graph's build and prints what it found, and creates new projects.
- `tests/` holds the tests, which build contents and file system outcomes in
  memory.
