# SessionGuard

SessionGuard keeps coding sessions intact when projects move. Coding assistants
key their sessions by the path of the project: in files inside the project, in
the names of directories below the home directory, in fields of transcripts, in
columns of databases. When a project is moved or renamed, a daemon notices,
rewrites the paths, re-keys the stores, and records how to take it all back.
It also migrates a tool's data to another directory, stage by stage, with a
roll-back at every stage.

The decisions are made in a library that is verified with Verus. Whoever drives
the library looks things up and carries things out; the library says what to
look up, what to do next, and what the outcome is.

## Layout

- `src/` is the library.
  - `text`, `chars`, `order`, `paths`, `sorted`: texts and paths.
  - `documents`, `globs`: JSON and TOML documents, shell patterns.
  - `tools`, `config`, `error`, `cli`: definitions, configuration, output.
  - `detector`, `registry`, `health`, `inventory`: what is there.
  - `watcher`, `known`, `daemon`: which moves matter, and what they entail.
  - `reconciler`, `reconcile`, `event_log`, `atomic`, `activity`: rewriting
    paths inside projects, and undoing it.
  - `sessions`: which projects have sessions; names of directories and the
    paths they stand for.
  - `rekey`: giving the stores a new path, and taking it back.
  - `migrate`: moving a tool's data, and moving it back.
  - `service`, `update`, `fleet`: the login service, releases, other machines.
- `tests/` runs the library on concrete values, against file systems in memory.
- `app/` is the program: the command line, the databases, the watcher, the
  processes that are run.

## How the library is used

A procedure that needs the outside world is a function from what has been seen
so far to the next request or the result. It is called again with one more
reply until it gives its result. The contract of such a function says what it
asks for, and gives, for every sequence of replies. What a whole run of it does
to a store or to a file system is stated in `rekey::laws`, `migrate::restore`
and `migrate::whole`.
