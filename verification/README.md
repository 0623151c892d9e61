# prek

The rules of a manager of git hooks, verified with Verus.

- `src/` is the library. It decides: how paths are cleaned and related to one another, which
  toolchain a Deno or Rust hook gets, what is done to install its environment, what command
  runs it, and how a script or a YAML scalar is written. Nothing in it touches the file
  system, the network or the environment. Where a decision depends on them, it is a flow: a
  function from a phase and the outcome of the last action to the next phase and action.
- `app/` performs the actions: files, processes, downloads, locks.
- `tests/` runs the library on concrete values. Flows are run against worlds that the tests
  make up.

What each function does is stated in its `ensures`, over the view of its arguments. What
holds of all inputs or of all steps of a flow is stated by the proof functions whose names
start with `law_`. The few calls into other crates stand in functions marked
`external_body`; their doc comments say what is taken on trust.
