# mononoke

The decision logic of two Mononoke tools and of what they share, verified with Verus.

- `gitimport`: reading Git trees as manifests, turning differences into file changes, and turning
  commits into changesets in the order of a walk.
- `benchmark_filestore`: the arguments of the benchmark, the blobstore that it builds, and the
  steps of a run.
- `tunables`: named values that a configuration can change while a server runs.
- `sql_ext`: the connections of a store and the options of MySQL.
- `bounded_traversal`: a tree, a clock that moves by hand, and logs that are sets, for watching a traversal.
- `number`, `assoc`, `buffer`: numbers as text, maps kept as lists, and byte buffers.

`src/` holds the library. Contracts speak of views: maps, sequences and plain numbers. Public proof
functions named `law_...` state what holds across several functions. Calls into other crates stand
behind declarations whose doc comments say what is taken on trust.

`app/` holds the programs: arguments, input and output, and the services that only an internal
build has. `tests/` runs the library.
