# diskscope

See where your disk space is going and clean it up safely: scan a
directory into a size tree, sort and filter it, render it as a table, a
tree, JSON or JSON lines, find duplicate files and junk, move files to the
trash with undo, and keep scan results of several devices in step.

The library under `src/` is written in Verus: each public function states
what it returns in its `ensures`, and Verus proves the code against it.

- `domain/` — the model: file nodes, scan results, filters, sort orders,
  byte-size formatting, duplicate reports, junk rules, sync events, and the
  ports that adapters implement.
- `engine/` — the engine's logic over the model: filtering and sorting of
  results, the output formats, building a tree from walked entries, the
  duplicate search, the cache and trash bookkeeping, the decisions of an
  incremental walk and the byte form it stores, the merge of sync events
  (last writer wins, tombstones, device tie-break) and a device's syncer.
- `cli/` and `gui/` — what the command line and the desktop front end
  compute from their inputs: argument conversions, the summary text, the
  transfer objects and the scan lifecycle.
- Outside computations (SHA-256, path parsing, string case mapping, the
  clock) are called through small trusted wrappers whose contracts name
  or state their results.

`app/` is the command-line program around the library: argument parsing
with clap, the file-system walk (jwalk, ignore), the redb cache, the system
trash, and terminal output. `tests/` exercises the library.
